use rari_doc::sourcepos::{parse_sourcepos, Sourcepos};

// ── Sourcepos::parse — pure string parsing ────────────────────────────

#[test]
fn parse_missing_dash_returns_none() {
    assert!(Sourcepos::parse("1:1").is_none());
}

#[test]
fn parse_malformed_start_returns_none() {
    assert!(Sourcepos::parse("1-2:3").is_none());
}

#[test]
fn parse_happy_path() {
    let sp = Sourcepos::parse("3:5-7:9").unwrap();
    assert_eq!((sp.line, sp.col, sp.end_line, sp.end_col), (3, 5, 7, 9));
}

#[test]
fn parse_unparseable_start_line_yields_sentinel() {
    let sp = Sourcepos::parse("abc:5-7:9").unwrap();
    assert_eq!((sp.line, sp.col), (-1, 5));
}

#[test]
fn parse_unparseable_start_col_yields_zero() {
    let sp = Sourcepos::parse("3:abc-7:9").unwrap();
    assert_eq!((sp.line, sp.col), (3, 0));
}

#[test]
fn parse_malformed_end_falls_back_to_sentinels() {
    let sp = Sourcepos::parse("3:5-bogus").unwrap();
    assert_eq!((sp.line, sp.col), (3, 5));
    assert_eq!((sp.end_line, sp.end_col), (-1, -1));
}

#[test]
fn parse_unparseable_end_line_yields_sentinel() {
    let sp = Sourcepos::parse("3:5-xyz:9").unwrap();
    assert_eq!((sp.end_line, sp.end_col), (-1, 9));
}

#[test]
fn parse_unparseable_end_col_yields_zero() {
    let sp = Sourcepos::parse("3:5-7:xyz").unwrap();
    assert_eq!((sp.end_line, sp.end_col), (7, 0));
}

// ── Sourcepos::shift_lines ────────────────────────────────────────────

#[test]
fn shift_lines_adds_offset_to_both_lines() {
    let sp = Sourcepos {
        line: 3,
        col: 5,
        end_line: 7,
        end_col: 9,
    }
    .shift_lines(10);
    assert_eq!((sp.line, sp.col, sp.end_line, sp.end_col), (13, 5, 17, 9));
}

#[test]
fn shift_lines_leaves_sentinel_lines_untouched() {
    let sp = Sourcepos {
        line: -1,
        col: 0,
        end_line: -1,
        end_col: -1,
    }
    .shift_lines(10);
    assert_eq!((sp.line, sp.end_line), (-1, -1));
}


#[test]
fn parse_sourcepos_applies_offset() {
    let sp = parse_sourcepos(Some("3:5-7:9"), 10).unwrap();
    assert_eq!((sp.line, sp.col, sp.end_line, sp.end_col), (13, 5, 17, 9));
    assert!(parse_sourcepos(None, 10).is_none());
    assert!(parse_sourcepos(Some("nope"), 10).is_none());
}

#[test]
fn parse_signed_and_overflowing_numbers() {
    let sp = Sourcepos::parse("+3:-5-99999999999999999999:7").unwrap();
    assert_eq!((sp.line, sp.col, sp.end_line, sp.end_col), (3, 0, -1, 7));
}

#[test]
fn wrapper_missing_attribute_returns_none() {
    // An element without `data-sourcepos`.
    assert!(parse_sourcepos(None, 0).is_none());
}

#[test]
fn wrapper_applies_fm_offset() {
    // An element with `data-sourcepos="3:5-7:9"` on a page with 10 lines of front matter.
    let sp = parse_sourcepos(Some("3:5-7:9"), 10).unwrap();
    assert_eq!((sp.line, sp.col, sp.end_line, sp.end_col), (13, 5, 17, 9));
}
