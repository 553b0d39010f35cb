use memscan::pattern::{search_bytes_for_token, PatternPair, TokenShape};

fn shape(groups: Vec<usize>) -> TokenShape {
    TokenShape::new(groups).expect("shape should be accepted")
}

fn patterns(lead: &[u8], trail: &[u8]) -> PatternPair {
    PatternPair { lead: lead.to_vec(), trail: trail.to_vec() }
}

#[test]
fn finds_token_flanked_by_both_anchors() {
    let s = shape(vec![8, 4]);
    let p = patterns(b"LS:", b";E");
    let buf = b"noise noise LS:deadbeef-cafe;E more noise";
    let r = search_bytes_for_token(buf, &s, &p);
    assert_eq!(r, Some(b"deadbeef-cafe".to_vec()));
}

#[test]
fn finds_token_at_buffer_start_and_end() {
    let s = shape(vec![4]);
    let p = patterns(b"<", b">");
    assert_eq!(search_bytes_for_token(b"<beef>tail", &s, &p), Some(b"beef".to_vec()));
    assert_eq!(search_bytes_for_token(b"head<beef>", &s, &p), Some(b"beef".to_vec()));
}

#[test]
fn returns_first_match_when_several_exist() {
    let s = shape(vec![4]);
    let p = patterns(b"<", b">");
    let buf = b"x<aaaa>y<bbbb>z";
    assert_eq!(search_bytes_for_token(buf, &s, &p), Some(b"aaaa".to_vec()));
}

#[test]
fn no_anchor_pair_means_no_match() {
    let s = shape(vec![8, 4]);
    let p = patterns(b"LS:", b";E");
    let buf = b"deadbeef-cafe stands alone without any anchor around it";
    assert_eq!(search_bytes_for_token(buf, &s, &p), None);
}

#[test]
fn lead_anchor_alone_is_not_enough() {
    let s = shape(vec![4]);
    let p = patterns(b"<", b">");
    assert_eq!(search_bytes_for_token(b"x<beef y", &s, &p), None);
}

#[test]
fn trail_anchor_alone_is_not_enough() {
    let s = shape(vec![4]);
    let p = patterns(b"<", b">");
    assert_eq!(search_bytes_for_token(b"x beef>y", &s, &p), None);
}

#[test]
fn anchors_must_be_adjacent_to_the_body() {
    let s = shape(vec![4]);
    let p = patterns(b"<", b">");
    assert_eq!(search_bytes_for_token(b"< beef >", &s, &p), None);
}

#[test]
fn wrong_body_shape_is_rejected() {
    let s = shape(vec![8, 4]);
    let p = patterns(b"LS:", b";E");
    // Second group too short.
    assert_eq!(search_bytes_for_token(b"LS:deadbeef-caf;E", &s, &p), None);
    // Non-hexadecimal digit in the first group.
    assert_eq!(search_bytes_for_token(b"LS:deadbeeg-cafe;E", &s, &p), None);
    // Missing hyphen.
    assert_eq!(search_bytes_for_token(b"LS:deadbeefXcafe;E", &s, &p), None);
}

#[test]
fn upper_and_lower_case_hex_are_accepted() {
    let s = shape(vec![4, 4]);
    let p = patterns(b"[", b"]");
    assert_eq!(search_bytes_for_token(b"[DEAD-beef]", &s, &p), Some(b"DEAD-beef".to_vec()));
}

#[test]
fn arbitrary_binary_noise_is_tolerated() {
    let s = shape(vec![4]);
    let p = patterns(b"<", b">");
    let mut buf: Vec<u8> = (0u8..=255u8).collect();
    buf.extend_from_slice(b"<f00d>");
    buf.extend_from_slice(&[0xff, 0xfe, 0x00, 0x80]);
    assert_eq!(search_bytes_for_token(&buf, &s, &p), Some(b"f00d".to_vec()));
}

#[test]
fn empty_buffer_has_no_match() {
    let s = shape(vec![4]);
    let p = patterns(b"<", b">");
    assert_eq!(search_bytes_for_token(b"", &s, &p), None);
}

#[test]
fn shape_rejects_empty_group_list_and_empty_groups() {
    assert!(TokenShape::new(vec![]).is_none());
    assert!(TokenShape::new(vec![4, 0, 4]).is_none());
    assert!(TokenShape::new(vec![8, 4, 4, 4, 12]).is_some());
}

#[test]
fn body_len_counts_digits_and_hyphens() {
    assert_eq!(shape(vec![8, 4, 4, 4, 12]).body_len(), 36);
    assert_eq!(shape(vec![4]).body_len(), 4);
}
