use trillium_bench::escape::{NamedHtmlEscaper, WriteRefused};

fn escaped(s: &str) -> String {
    let mut out = String::new();
    NamedHtmlEscaper.write_escaped_str(&mut out, s);
    out
}

#[test]
fn script_tag_becomes_named_entities() {
    assert_eq!(escaped("<script>alert(1)</script>"), "&lt;script&gt;alert(1)&lt;/script&gt;");
}

#[test]
fn every_special_character_has_its_entity() {
    assert_eq!(escaped("<"), "&lt;");
    assert_eq!(escaped(">"), "&gt;");
    assert_eq!(escaped("&"), "&amp;");
    assert_eq!(escaped("\""), "&quot;");
    assert_eq!(escaped("'"), "&#39;");
}

#[test]
fn plain_text_is_unchanged() {
    assert_eq!(escaped(""), "");
    assert_eq!(escaped("fortune: no such file or directory"), "fortune: no such file or directory");
    assert_eq!(escaped("フレームワークのベンチマーク"), "フレームワークのベンチマーク");
}

#[test]
fn appends_to_what_is_already_written() {
    let mut out = String::from("<td>");
    NamedHtmlEscaper.write_escaped_str(&mut out, "a < b & c");
    assert_eq!(out, "<td>a &lt; b &amp; c");
}

#[test]
fn escaping_distributes_over_concatenation() {
    let a = "A computer & a <b>";
    let b = "\"quote\" it's";
    assert_eq!(escaped(&format!("{a}{b}")), format!("{}{}", escaped(a), escaped(b)));
}

#[test]
fn escaped_text_has_no_markup_characters() {
    let out = escaped("<'\"&>x<y>");
    assert!(!out.contains('<') && !out.contains('>') && !out.contains('"') && !out.contains('\''));
    assert_eq!(out, "&lt;&#39;&quot;&amp;&gt;x&lt;y&gt;");
}

#[test]
fn entity_text_itself_is_escaped_again() {
    assert_eq!(escaped("&lt;"), "&amp;lt;");
}

/// Drives an escaped write of `s` into a destination that takes the first `limit` pieces and
/// refuses the next; returns the pieces offered, in order, and how the write ended.
fn drive(s: &str, limit: Option<usize>) -> (Vec<String>, Result<(), WriteRefused>) {
    let mut write = NamedHtmlEscaper.start_write(s);
    let mut offered: Vec<String> = Vec::new();
    while let Some(piece) = write.next_piece() {
        let taken = match limit {
            Some(n) => offered.len() < n,
            None => true,
        };
        offered.push(piece.to_string());
        write.record(taken);
    }
    (offered, write.outcome().expect("a finished write has an outcome"))
}

#[test]
fn write_pieces_split_at_special_characters() {
    let (pieces, result) = drive("a<b", None);
    assert_eq!(pieces, vec!["a", "&lt;", "b"]);
    assert_eq!(result, Ok(()));
}

#[test]
fn write_pieces_keep_empty_runs() {
    assert_eq!(drive("", None).0, vec![""]);
    assert_eq!(drive("<", None).0, vec!["", "&lt;", ""]);
    assert_eq!(drive("<<", None).0, vec!["", "&lt;", "", "&lt;", ""]);
    assert_eq!(drive("plain", None).0, vec!["plain"]);
}

#[test]
fn write_into_accepting_destination_spells_escaped_text() {
    for s in ["<script>alert('x')</script>", "a & b", "\"q\"", "", "フ<レ>ーム"] {
        let (pieces, result) = drive(s, None);
        assert_eq!(result, Ok(()));
        assert_eq!(pieces.concat(), escaped(s));
    }
}

#[test]
fn write_stops_at_first_refused_piece() {
    let s = "<b>x & y</b>";
    let all = drive(s, None).0;
    for k in 0..all.len() {
        let (offered, result) = drive(s, Some(k));
        assert_eq!(result, Err(WriteRefused));
        assert_eq!(offered.len(), k + 1);
        assert_eq!(offered[..], all[..k + 1]);
        let written = offered[..k].concat();
        assert!(escaped(s).starts_with(&written));
    }
}

#[test]
fn refused_write_offers_nothing_more() {
    let mut write = NamedHtmlEscaper.start_write("x<y");
    assert_eq!(write.next_piece(), Some("x"));
    write.record(false);
    assert_eq!(write.next_piece(), None);
    assert_eq!(write.outcome(), Some(Err(WriteRefused)));
    write.record(true);
    assert_eq!(write.next_piece(), None);
    assert_eq!(write.outcome(), Some(Err(WriteRefused)));
}

#[test]
fn unfinished_write_has_no_outcome() {
    let mut write = NamedHtmlEscaper.start_write("'");
    assert_eq!(write.outcome(), None);
    write.record(true);
    assert_eq!(write.next_piece(), Some("&#39;"));
    assert_eq!(write.outcome(), None);
    write.record(true);
    write.record(true);
    assert_eq!(write.next_piece(), None);
    assert_eq!(write.outcome(), Some(Ok(())));
}
