use boplats::rank::rank_rentals;
use boplats::rental::Rental;

fn rental(link: &str, queue_position: u32, queue_length: u32) -> Rental {
    Rental { link: String::from(link), queue_position, queue_length, location: None }
}

fn keys(rs: &[Rental]) -> Vec<(u32, u32)> {
    rs.iter().map(|r| (r.queue_position, r.queue_length)).collect()
}

#[test]
fn ranked_by_position_then_length() {
    let ranked = rank_rentals(vec![
        rental("a", 4, 9),
        rental("b", 1, 30),
        rental("c", 4, 2),
        rental("d", 0, 100),
        rental("e", 1, 5),
    ]);
    assert_eq!(keys(&ranked), vec![(0, 100), (1, 5), (1, 30), (4, 2), (4, 9)]);
    for pair in ranked.windows(2) {
        let (a, b) = (&pair[0], &pair[1]);
        assert!(
            a.queue_position < b.queue_position
                || (a.queue_position == b.queue_position && a.queue_length <= b.queue_length)
        );
    }
}

#[test]
fn empty_and_equal_keys() {
    assert!(rank_rentals(Vec::new()).is_empty());
    let ranked = rank_rentals(vec![rental("x", 2, 2), rental("y", 2, 2), rental("z", 1, 2)]);
    assert_eq!(keys(&ranked), vec![(1, 2), (2, 2), (2, 2)]);
    let mut links: Vec<String> = ranked.iter().map(|r| r.link.clone()).collect();
    links.sort();
    assert_eq!(links, vec!["x", "y", "z"]);
}

#[test]
fn report_lines() {
    assert_eq!(rental("https://x/1", 2, 10).to_line(), "https://x/1 2 / 10");
    let mut located = rental("L", 0, 4294967295);
    located.location = Some(String::from("Centrum"));
    assert_eq!(located.to_line(), "L 0 / 4294967295 Centrum");
}
