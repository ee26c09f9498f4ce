use boplats::listing::{scan_candidates, search_form, search_url, session_cookie};

fn url(id: char) -> String {
    let mut u = String::from("https://nya.boplats.se/objekt/1hand/");
    while u.chars().count() < 60 {
        u.push(id);
    }
    u
}

fn marked(u: &str) -> String {
    format!("  <a href=\"{}\" class=\"search-result-link\">", u)
}

#[test]
fn marked_lines_give_links_in_order() {
    let body = format!(
        "<ul>\n{}\n<li>no link</li>\n{}\r\n{}\n</ul>",
        marked(&url('A')),
        marked(&url('B')),
        marked(&url('C'))
    );
    assert_eq!(scan_candidates(&body), vec![url('A'), url('B'), url('C')]);
}

#[test]
fn page_without_markers_gives_no_candidates() {
    assert!(scan_candidates("<ul>\n<li><a href=\"x\">x</a></li>\n</ul>\n").is_empty());
    assert!(scan_candidates("").is_empty());
}

#[test]
fn short_marked_line_gives_what_it_has() {
    assert_eq!(scan_candidates("search-result-link"), vec![String::from("lt-link")]);
    assert_eq!(scan_candidates("0123456789search-result-link\n"), vec![String::from("earch-result-link")]);
}

#[test]
fn cookie_carries_the_session() {
    assert_eq!(session_cookie("abc123"), "Boplats-session=abc123;");
    assert_eq!(session_cookie(""), "Boplats-session=;");
}

#[test]
fn search_request() {
    assert_eq!(search_url(), "https://nya.boplats.se/sok");
    assert_eq!(
        search_form(),
        "itemtype=1hand&city=508A8CB406FE001F00030A60&filterrequirements=on&search=search"
    );
}
