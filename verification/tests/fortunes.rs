use trillium_bench::fortunes::{
    additional_fortune, fortunes, sort_fortunes, Fortune, FortunesQuery, FortunesReply,
    FORTUNES_CONTENT_TYPE,
};

fn fortune(id: i32, message: &str) -> Fortune {
    Fortune { id, message: message.to_string() }
}

fn ids(v: &[Fortune]) -> Vec<i32> {
    v.iter().map(|f| f.id).collect()
}

#[test]
fn sorts_by_message_bytes() {
    let sorted = sort_fortunes(vec![
        fortune(1, "fortune: No such file or directory"),
        fortune(2, "A computer scientist is someone who fixes things that aren't broken."),
        fortune(3, "After enough decimal places, nobody gives a damn."),
        fortune(4, "<script>alert(\"This should not be displayed in a browser alert box.\");</script>"),
    ]);
    assert_eq!(ids(&sorted), vec![4, 2, 3, 1]);
}

#[test]
fn upper_case_sorts_before_lower_case_and_prefix_first() {
    let sorted = sort_fortunes(vec![fortune(1, "b"), fortune(2, "B"), fortune(3, "bb"), fortune(4, "")]);
    assert_eq!(ids(&sorted), vec![4, 2, 1, 3]);
}

#[test]
fn non_ascii_sorts_after_ascii_by_utf8_bytes() {
    let sorted = sort_fortunes(vec![
        fortune(1, "フレームワークのベンチマーク"),
        fortune(2, "z"),
        fortune(3, "é"),
    ]);
    assert_eq!(ids(&sorted), vec![2, 3, 1]);
}

#[test]
fn equal_messages_keep_their_order() {
    let sorted = sort_fortunes(vec![
        fortune(5, "same"),
        fortune(1, "other"),
        fortune(3, "same"),
        fortune(9, "same"),
        fortune(2, "a"),
    ]);
    assert_eq!(ids(&sorted), vec![2, 1, 5, 3, 9]);
}

#[test]
fn sorting_sorted_fortunes_changes_nothing() {
    let once = sort_fortunes(vec![fortune(3, "c"), fortune(1, "a"), fortune(2, "b"), fortune(4, "a")]);
    let before = ids(&once);
    let twice = sort_fortunes(once);
    assert_eq!(ids(&twice), before);
    assert_eq!(before, vec![1, 4, 2, 3]);
}

#[test]
fn empty_and_single_inputs() {
    assert!(sort_fortunes(vec![]).is_empty());
    let one = sort_fortunes(vec![fortune(7, "x")]);
    assert_eq!(ids(&one), vec![7]);
    assert_eq!(one[0].message, "x");
}

#[test]
fn additional_fortune_text() {
    let f = additional_fortune();
    assert_eq!(f.id, 0);
    assert_eq!(f.message, "Additional fortune added at request time.");
}

#[test]
fn page_holds_rows_and_the_additional_fortune_in_order() {
    let reply = fortunes(FortunesQuery::Rows(vec![
        fortune(1, "fortune: No such file or directory"),
        fortune(2, "A computer scientist is someone who fixes things that aren't broken."),
    ]));
    assert_eq!(reply.status(), 200);
    match reply {
        FortunesReply::Page(page) => {
            assert_eq!(ids(&page), vec![2, 0, 1]);
            assert_eq!(page[1].message, "Additional fortune added at request time.");
        }
        _ => panic!("expected a page"),
    }
}

#[test]
fn page_of_an_empty_table() {
    match fortunes(FortunesQuery::Rows(vec![])) {
        FortunesReply::Page(page) => assert_eq!(ids(&page), vec![0]),
        _ => panic!("expected a page"),
    }
}

#[test]
fn without_database_the_service_is_unavailable() {
    let reply = fortunes(FortunesQuery::NoDatabase);
    assert!(matches!(reply, FortunesReply::ServiceUnavailable));
    assert_eq!(reply.status(), 503);
}

#[test]
fn failed_query_is_an_internal_error() {
    let reply = fortunes(FortunesQuery::Failed);
    assert!(matches!(reply, FortunesReply::InternalServerError));
    assert_eq!(reply.status(), 500);
}

#[test]
fn page_content_type() {
    assert_eq!(FORTUNES_CONTENT_TYPE, "text/html; charset=utf-8");
}
