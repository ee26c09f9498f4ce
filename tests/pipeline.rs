use boplats::aggregate::{aggregate_rentals, failure_notice};
use boplats::listing::scan_candidates;
use boplats::rank::rank_rentals;
use boplats::rental::BoplatsError;

fn url(id: char) -> String {
    let mut u = String::from("https://nya.boplats.se/objekt/1hand/");
    while u.chars().count() < 60 {
        u.push(id);
    }
    u
}

fn detail(position: u32, length: u32) -> String {
    format!(
        "<html>\n{} sökande just nu\n({}) före dig om du anmäler intresse\n</html>",
        length, position
    )
}

#[test]
fn three_candidates_one_failing() {
    let listing = format!(
        "<ul>\n  <a href=\"{}\" class=\"search-result-link\">\n  <a href=\"{}\" class=\"search-result-link\">\n  <a href=\"{}\" class=\"search-result-link\">\n</ul>\n",
        url('A'),
        url('B'),
        url('C')
    );
    let candidates = scan_candidates(&listing);
    assert_eq!(candidates, vec![url('A'), url('B'), url('C')]);
    let fetched = vec![
        Ok(format!("10 sökande just nu\n(2) före dig om du anmäler intresse\n")),
        Err(BoplatsError::Transport),
        Ok(format!("5 sökande just nu\n(1) före dig om du anmäler intresse\n")),
    ];
    let collected = aggregate_rentals(&candidates, fetched);
    assert_eq!(collected.failed, vec![url('B')]);
    let ranked = rank_rentals(collected.rentals);
    let report: Vec<(String, u32, u32)> = ranked
        .iter()
        .map(|r| (r.link.clone(), r.queue_position, r.queue_length))
        .collect();
    assert_eq!(report, vec![(url('C'), 1, 5), (url('A'), 2, 10)]);
    assert_eq!(
        failure_notice(&collected.failed[0]),
        format!("Fetching rental \"{}\" failed", url('B'))
    );
}

#[test]
fn failures_are_counted_out() {
    let candidates = vec![String::from("a"), String::from("b"), String::from("c"), String::from("d")];
    let fetched = vec![
        Ok(detail(3, 8)),
        Ok(String::from("<p>nothing here</p>")),
        Err(BoplatsError::Transport),
        Ok(detail(1, 1)),
    ];
    let collected = aggregate_rentals(&candidates, fetched);
    assert_eq!(collected.rentals.len(), 4 - 2);
    assert_eq!(collected.failed, vec![String::from("b"), String::from("c")]);
    for r in &collected.rentals {
        assert!(candidates.contains(&r.link));
    }
}

#[test]
fn all_failing_gives_empty_report() {
    let candidates = vec![String::from("a"), String::from("b")];
    let fetched = vec![Err(BoplatsError::Transport), Err(BoplatsError::Extraction)];
    let collected = aggregate_rentals(&candidates, fetched);
    assert!(collected.rentals.is_empty());
    assert_eq!(collected.failed, candidates);
    assert!(rank_rentals(collected.rentals).is_empty());
}

#[test]
fn no_candidates_no_work() {
    let collected = aggregate_rentals(&Vec::new(), Vec::new());
    assert!(collected.rentals.is_empty());
    assert!(collected.failed.is_empty());
}

#[test]
fn repeated_link_gives_one_rental_per_candidate() {
    let candidates = vec![String::from("same"), String::from("same")];
    let fetched = vec![Ok(detail(1, 2)), Err(BoplatsError::Transport)];
    let collected = aggregate_rentals(&candidates, fetched);
    assert_eq!(collected.rentals.len(), 1);
    assert_eq!(collected.rentals[0].link, "same");
}
