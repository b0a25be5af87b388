use epub_image_embedder::candidates::{largest_candidate, parse_width, Candidate};

fn by_width(url: &str, width: f64) -> Candidate {
    Candidate { url: url.to_string(), width: Some(width.to_bits()), density: None }
}

fn by_density(url: &str, density: f64) -> Candidate {
    Candidate { url: url.to_string(), width: None, density: Some(density.to_bits()) }
}

fn largest_url(candidates: Vec<Candidate>) -> Option<String> {
    largest_candidate(&candidates).map(|candidate| candidate.url.clone())
}

#[test]
fn widest_candidate_wins() {
    let candidates = vec![by_width("a", 320.0), by_width("b", 1280.0), by_width("c", 640.0)];
    assert_eq!(largest_url(candidates), Some("b".to_string()));
}

#[test]
fn densest_candidate_wins() {
    let candidates = vec![by_density("a", 1.5), by_density("b", 1.0), by_density("c", 2.0)];
    assert_eq!(largest_url(candidates), Some("c".to_string()));
}

#[test]
fn earlier_of_equal_candidates_wins() {
    let candidates = vec![by_width("a", 640.0), by_width("b", 640.0)];
    assert_eq!(largest_url(candidates), Some("a".to_string()));
}

#[test]
fn candidates_of_different_measure_do_not_compare() {
    let candidates = vec![by_density("a", 1.0), by_width("b", 640.0), by_density("c", 3.0)];
    assert_eq!(largest_url(candidates), Some("c".to_string()));
    let bare = Candidate { url: "a".to_string(), width: None, density: None };
    assert_eq!(largest_url(vec![bare, by_width("b", 640.0)]), Some("a".to_string()));
    let both = Candidate {
        url: "a".to_string(),
        width: Some(1.0f64.to_bits()),
        density: Some(1.0f64.to_bits()),
    };
    assert_eq!(largest_url(vec![both, by_width("b", 640.0)]), Some("a".to_string()));
}

#[test]
fn no_candidate_is_largest_of_none() {
    assert_eq!(largest_url(vec![]), None);
}

#[test]
fn largest_candidate_exceeds_all() {
    let widths = [300.0, 20.5, 1200.0, 1199.0, 1200.0];
    let candidates: Vec<Candidate> = widths.iter().map(|width| by_width("x", *width)).collect();
    let best = largest_candidate(&candidates).unwrap();
    assert_eq!(best.width, Some(1200.0f64.to_bits()));
    assert!(candidates.iter().all(|candidate| !best.is_smaller_than(candidate)));
    assert!(candidates[0].is_smaller_than(best));
    assert!(candidates[1].is_smaller_than(best));
}

#[test]
fn widths_are_decimal_numbers() {
    assert_eq!(parse_width(b"640"), Some(640));
    assert_eq!(parse_width(b"+640"), Some(640));
    assert_eq!(parse_width(b"0"), Some(0));
    assert_eq!(parse_width(b"007"), Some(7));
    assert_eq!(parse_width(b"4294967295"), Some(4294967295));
}

#[test]
fn other_texts_are_no_widths() {
    for text in ["", "+", "-1", "++1", "100%", "640px", " 640", "4294967296", "99999999999999999999"] {
        assert_eq!(parse_width(text.as_bytes()), None, "{}", text);
    }
}
