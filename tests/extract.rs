use boplats::extract::{
    get_location_from_rental_document, get_queue_length_from_rental_document,
    get_queue_position_from_rental_document, queue_length_from_text, queue_position_from_text,
    rental_from_page, standing_from_lines, standing_from_page, standing_from_text, QueueStanding,
};
use boplats::rental::BoplatsError;

const QUEUE_PAGE: &str = "<html><body><div id=\"maincontent\"><div id=\"predicted-position\">12 sökande just nu (3) före dig om du anmäler intresse</div></div></body></html>";

const LOCATED_PAGE: &str = "<html><body><div id=\"maincontent\"><div><div class=\"pageblock objectinfo pure-u-1 pure-u-md-1-2\"><div><div class=\"properties\"><div><p>Kvarter</p></div><div><p>Majorna, Göteborg</p></div></div></div></div></div><p id=\"predicted-position\">40 sökande just nu (7) före dig</p></div></body></html>";

#[test]
fn lines_give_length_and_position() {
    let body = "<div>\n12 sökande just nu\n(3) före dig om du anmäler intresse\n</div>\n";
    assert_eq!(standing_from_lines(body), Ok(QueueStanding { position: 3, length: 12 }));
}

#[test]
fn page_without_queue_element_reads_lines() {
    let body = "<p>\n12 sökande just nu\r\n(3) före dig om du anmäler intresse\r\n</p>";
    assert_eq!(standing_from_page(body), Ok(QueueStanding { position: 3, length: 12 }));
}

#[test]
fn neither_phrase_is_an_extraction_error() {
    let body = "<html><body><p>Inga uppgifter</p></body></html>";
    assert_eq!(standing_from_lines(body), Err(BoplatsError::Extraction));
    assert_eq!(standing_from_page(body), Err(BoplatsError::Extraction));
}

#[test]
fn one_phrase_alone_is_an_extraction_error() {
    assert_eq!(standing_from_lines("12 sökande just nu\n"), Err(BoplatsError::Extraction));
    assert_eq!(
        standing_from_lines("(3) före dig om du anmäler intresse\n"),
        Err(BoplatsError::Extraction)
    );
}

#[test]
fn first_matching_line_counts() {
    let body = "7 sökande just nu\n9 sökande just nu\n(2) före dig om du anmäler intresse\n(5) före dig om du anmäler intresse\n";
    assert_eq!(standing_from_lines(body), Ok(QueueStanding { position: 2, length: 7 }));
}

#[test]
fn unparsable_numbers_are_extraction_errors() {
    let body = "many sökande just nu\n(3) före dig om du anmäler intresse\n";
    assert_eq!(standing_from_lines(body), Err(BoplatsError::Extraction));
    let too_large = "4294967296 sökande just nu\n(3) före dig om du anmäler intresse\n";
    assert_eq!(standing_from_lines(too_large), Err(BoplatsError::Extraction));
    let largest = "4294967295 sökande just nu\n(0) före dig om du anmäler intresse\n";
    assert_eq!(
        standing_from_lines(largest),
        Ok(QueueStanding { position: 0, length: 4294967295 })
    );
}

#[test]
fn text_tokens() {
    assert_eq!(queue_length_from_text("  42 sökande"), Some(42));
    assert_eq!(queue_length_from_text(""), None);
    assert_eq!(queue_length_from_text("   "), None);
    assert_eq!(queue_length_from_text("4a sökande"), None);
    assert_eq!(queue_position_from_text("sökande (7) före"), Some(7));
    assert_eq!(queue_position_from_text("(7 före"), Some(7));
    assert_eq!(queue_position_from_text("7 före"), None);
    assert_eq!(queue_position_from_text("()"), None);
    assert_eq!(standing_from_text("12 (3)"), Ok(QueueStanding { position: 3, length: 12 }));
    assert_eq!(standing_from_text("12"), Err(BoplatsError::Extraction));
}

#[test]
fn queue_element_gives_both_numbers() {
    assert_eq!(get_queue_length_from_rental_document(QUEUE_PAGE), Ok(12));
    assert_eq!(get_queue_position_from_rental_document(QUEUE_PAGE), Ok(3));
    assert_eq!(get_location_from_rental_document(QUEUE_PAGE), None);
}

#[test]
fn missing_queue_element_is_an_extraction_error() {
    let body = "<html><body><p>Inget</p></body></html>";
    assert_eq!(get_queue_length_from_rental_document(body), Err(BoplatsError::Extraction));
    assert_eq!(get_queue_position_from_rental_document(body), Err(BoplatsError::Extraction));
}

#[test]
fn location_is_read_where_present() {
    assert_eq!(
        get_location_from_rental_document(LOCATED_PAGE),
        Some(String::from("Majorna, Göteborg"))
    );
    let rental = rental_from_page(String::from("https://example.test/a"), LOCATED_PAGE).unwrap();
    assert_eq!(rental.link, "https://example.test/a");
    assert_eq!(rental.queue_position, 7);
    assert_eq!(rental.queue_length, 40);
    assert_eq!(rental.location, Some(String::from("Majorna, Göteborg")));
}

#[test]
fn rental_from_queue_element() {
    let rental = rental_from_page(String::from("L"), QUEUE_PAGE).unwrap();
    assert_eq!(rental.queue_position, 3);
    assert_eq!(rental.queue_length, 12);
    assert_eq!(rental.location, None);
    assert_eq!(rental_from_page(String::from("L"), "<p>x</p>").unwrap_err(), BoplatsError::Extraction);
}
