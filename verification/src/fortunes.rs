//! The fortunes page: the rows it shows and the order it shows them in.

use vstd::prelude::*;
use vstd::utf8::encode_utf8;
use crate::order::{
    bytes_less, bytes_lt, lemma_bytes_le_transitive, lemma_bytes_lt_irreflexive,
    lemma_bytes_lt_total, lemma_bytes_lt_transitive,
};

verus! {

/// One row of the `fortune` table.
pub struct Fortune {
    pub id: i32,
    pub message: String,
}

/// The bytes a fortune is ordered by: its message in UTF-8.
pub open spec fn message_bytes(f: Fortune) -> Seq<u8> {
    encode_utf8(f.message@)
}

/// Every fortune's message is, byte-wise, not after the message of any fortune behind it.
pub open spec fn sorted_by_message(s: Seq<Fortune>) -> bool {
    forall|i: int, j: int|
        0 <= i < j < s.len() ==> !bytes_lt(message_bytes(#[trigger] s[j]), message_bytes(
            #[trigger] s[i],
        ))
}

/// Holds of the fortunes whose message bytes are `k`.
pub open spec fn has_message_bytes(k: Seq<u8>) -> spec_fn(Fortune) -> bool {
    |f: Fortune| message_bytes(f) == k
}

/// `sorted` holds the fortunes of `input`, ordered by message bytes, where fortunes with equal
/// messages keep the order they had in `input`.
pub open spec fn is_stable_sort_of(sorted: Seq<Fortune>, input: Seq<Fortune>) -> bool {
    &&& sorted_by_message(sorted)
    &&& sorted.to_multiset() == input.to_multiset()
    &&& forall|k: Seq<u8>|
        #[trigger] sorted.filter(has_message_bytes(k)) == input.filter(has_message_bytes(k))
}

proof fn lemma_filter_none(s: Seq<Fortune>, p: spec_fn(Fortune) -> bool)
    requires
        forall|i: int| 0 <= i < s.len() ==> !p(#[trigger] s[i]),
    ensures
        s.filter(p) =~= Seq::<Fortune>::empty(),
    decreases s.len(),
{
    reveal(Seq::filter);
    if s.len() > 0 {
        lemma_filter_none(s.drop_last(), p);
    }
}

proof fn lemma_filter_single(x: Fortune, p: spec_fn(Fortune) -> bool)
    ensures
        seq![x].filter(p) =~= (if p(x) {
            seq![x]
        } else {
            Seq::<Fortune>::empty()
        }),
{
    reveal(Seq::filter);
    assert(seq![x].drop_last() =~= Seq::<Fortune>::empty());
    lemma_filter_none(Seq::<Fortune>::empty(), p);
}

/// Inserting `x` in front of a run of fortunes that all sort strictly before it puts `x` first
/// among the fortunes with its message, and leaves every other message's fortunes as they were.
proof fn lemma_insert_filter(out: Seq<Fortune>, pos: int, x: Fortune, k: Seq<u8>)
    requires
        0 <= pos <= out.len(),
        forall|i: int|
            0 <= i < pos ==> bytes_lt(message_bytes(#[trigger] out[i]), message_bytes(x)),
    ensures
        out.insert(pos, x).filter(has_message_bytes(k)) == (if message_bytes(x) == k {
            seq![x] + out.filter(has_message_bytes(k))
        } else {
            out.filter(has_message_bytes(k))
        }),
{
    let p = has_message_bytes(k);
    let pre = out.subrange(0, pos);
    let suf = out.subrange(pos, out.len() as int);
    assert(out =~= pre + suf);
    assert(out.insert(pos, x) =~= pre + seq![x] + suf);
    Seq::filter_distributes_over_add(pre + seq![x], suf, p);
    Seq::filter_distributes_over_add(pre, seq![x], p);
    Seq::filter_distributes_over_add(pre, suf, p);
    lemma_filter_single(x, p);
    if message_bytes(x) == k {
        assert forall|i: int| 0 <= i < pre.len() implies !p(#[trigger] pre[i]) by {
            if p(pre[i]) {
                assert(bytes_lt(message_bytes(out[i]), message_bytes(x)));
                lemma_bytes_lt_irreflexive(k);
            }
        }
        lemma_filter_none(pre, p);
        assert(out.insert(pos, x).filter(p) =~= seq![x] + out.filter(p));
    } else {
        assert(out.insert(pos, x).filter(p) =~= out.filter(p));
    }
}

/// The first position in sorted `out` whose message is not before the message of `x`.
fn lower_bound(out: &Vec<Fortune>, x: &Fortune) -> (pos: usize)
    requires
        sorted_by_message(out@),
    ensures
        pos <= out.len(),
        forall|i: int|
            0 <= i < pos ==> bytes_lt(message_bytes(#[trigger] out@[i]), message_bytes(*x)),
        forall|i: int|
            pos <= i < out.len() ==> !bytes_lt(message_bytes(#[trigger] out@[i]), message_bytes(*x)),
{
    let key = x.message.as_str().as_bytes();
    let mut i: usize = 0;
    while i < out.len()
        invariant
            i <= out.len(),
            key@ == message_bytes(*x),
            sorted_by_message(out@),
            forall|j: int|
                0 <= j < i ==> bytes_lt(message_bytes(#[trigger] out@[j]), message_bytes(*x)),
        decreases out.len() - i,
    {
        if !bytes_less(out[i].message.as_str().as_bytes(), key) {
            proof {
                assert forall|j: int| i <= j < out.len() implies !bytes_lt(
                    message_bytes(#[trigger] out@[j]),
                    message_bytes(*x),
                ) by {
                    if j > i {
                        lemma_bytes_le_transitive(message_bytes(*x), message_bytes(out@[i as int]), message_bytes(out@[j]));
                    }
                }
            }
            return i;
        }
        i = i + 1;
    }
    i
}

/// Orders fortunes by the bytes of their messages; fortunes with equal messages keep their
/// order.
pub fn sort_fortunes(fortunes: Vec<Fortune>) -> (sorted: Vec<Fortune>)
    ensures
        is_stable_sort_of(sorted@, fortunes@),
{
    let ghost input = fortunes@;
    let mut rest = fortunes;
    let mut out: Vec<Fortune> = Vec::new();
    proof {
        assert(input.skip(input.len() as int) =~= Seq::<Fortune>::empty());
        assert(rest@ =~= input.take(rest.len() as int));
    }
    while rest.len() > 0
        invariant
            rest.len() <= input.len(),
            rest@ == input.take(rest.len() as int),
            is_stable_sort_of(out@, input.skip(rest.len() as int)),
        decreases rest.len(),
    {
        let ghost j = rest.len() as int;
        let ghost before = out@;
        let x = rest.pop().unwrap();
        let ghost tail = input.skip(j);
        let ghost grown = input.skip(j - 1);
        assert(x == input[j - 1]);
        assert(grown =~= seq![x] + tail);
        assert(rest@ =~= input.take(j - 1));
        let pos: usize = lower_bound(&out, &x);
        out.insert(pos, x);
        proof {
            assert forall|k: Seq<u8>|
                #[trigger] out@.filter(has_message_bytes(k)) == grown.filter(has_message_bytes(k)) by {
                lemma_insert_filter(before, pos as int, x, k);
                Seq::filter_distributes_over_add(seq![x], tail, has_message_bytes(k));
                lemma_filter_single(x, has_message_bytes(k));
                assert(before.filter(has_message_bytes(k)) == tail.filter(has_message_bytes(k)));
                if message_bytes(x) == k {
                    assert(seq![x] + tail.filter(has_message_bytes(k)) =~= grown.filter(has_message_bytes(k)));
                } else {
                    assert(Seq::<Fortune>::empty() + tail.filter(has_message_bytes(k)) =~= tail.filter(has_message_bytes(k)));
                }
            }
            assert(grown =~= tail.insert(0, x));
            vstd::seq_lib::to_multiset_insert(tail, 0, x);
            vstd::seq_lib::to_multiset_insert(before, pos as int, x);
            assert forall|a: int, b: int| 0 <= a < b < out@.len() implies !bytes_lt(
                message_bytes(#[trigger] out@[b]),
                message_bytes(#[trigger] out@[a]),
            ) by {
                let p: int = pos as int;
                if a < p && b == p {
                    lemma_bytes_lt_irreflexive(message_bytes(before[a]));
                    if bytes_lt(message_bytes(x), message_bytes(before[a])) {
                        lemma_bytes_lt_transitive(message_bytes(x), message_bytes(before[a]), message_bytes(x));
                        lemma_bytes_lt_irreflexive(message_bytes(x));
                    }
                } else if a < p && b > p {
                    assert(out@[b] == before[b - 1]);
                    if bytes_lt(message_bytes(before[b - 1]), message_bytes(before[a])) {
                        lemma_bytes_lt_transitive(message_bytes(before[b - 1]), message_bytes(before[a]), message_bytes(x));
                    }
                } else if a == p && b > p {
                    assert(out@[b] == before[b - 1]);
                } else if a > p {
                    assert(out@[a] == before[a - 1]);
                    assert(out@[b] == before[b - 1]);
                } else {
                    assert(out@[a] == before[a]);
                    assert(out@[b] == before[b]);
                }
            }
        }
    }
    proof {
        assert(input.skip(0) =~= input);
    }
    out
}

proof fn lemma_sorted_same_runs_equal(a: Seq<Fortune>, b: Seq<Fortune>)
    requires
        sorted_by_message(a),
        sorted_by_message(b),
        a.len() == b.len(),
        forall|k: Seq<u8>|
            #[trigger] a.filter(has_message_bytes(k)) == b.filter(has_message_bytes(k)),
    ensures
        a == b,
    decreases a.len(),
{
    reveal(Seq::filter);
    if a.len() == 0 {
        assert(a =~= b);
    } else {
        let x = a.last();
        let y = b.last();
        let kx = message_bytes(x);
        let ky = message_bytes(y);
        let n: int = a.len() - 1;
        // y's message occurs in `a`, so it is not after x's; and the other way round.
        assert(b.filter(has_message_bytes(ky)) == b.drop_last().filter(has_message_bytes(ky)).push(y));
        assert(b.filter(has_message_bytes(ky)).contains(y)) by {
            let f = b.filter(has_message_bytes(ky));
            assert(f[f.len() - 1] == y);
        }
        a.lemma_filter_contains_rev(has_message_bytes(ky), y);
        let i: int = choose|i: int| 0 <= i < a.len() && a[i] == y;
        if i < n {
            assert(!bytes_lt(message_bytes(a[n]), message_bytes(a[i])));
        }
        assert(a.filter(has_message_bytes(kx)) == a.drop_last().filter(has_message_bytes(kx)).push(x));
        assert(a.filter(has_message_bytes(kx)).contains(x)) by {
            let f = a.filter(has_message_bytes(kx));
            assert(f[f.len() - 1] == x);
        }
        b.lemma_filter_contains_rev(has_message_bytes(kx), x);
        let j: int = choose|j: int| 0 <= j < b.len() && b[j] == x;
        if j < n {
            assert(!bytes_lt(message_bytes(b[n]), message_bytes(b[j])));
        }
        lemma_bytes_lt_total(kx, ky);
        assert(kx == ky);
        assert(b.filter(has_message_bytes(kx)) == b.drop_last().filter(has_message_bytes(kx)).push(y));
        assert(x == y) by {
            let fa = a.filter(has_message_bytes(kx));
            let fb = b.filter(has_message_bytes(kx));
            assert(fa[fa.len() - 1] == x);
            assert(fb[fb.len() - 1] == y);
        }
        assert forall|k: Seq<u8>|
            #[trigger] a.drop_last().filter(has_message_bytes(k)) == b.drop_last().filter(
                has_message_bytes(k),
            ) by {
            let fa = a.filter(has_message_bytes(k));
            let fb = b.filter(has_message_bytes(k));
            if k == kx {
                assert(fa.drop_last() =~= a.drop_last().filter(has_message_bytes(k)));
                assert(fb.drop_last() =~= b.drop_last().filter(has_message_bytes(k)));
            } else {
                assert(fa == a.drop_last().filter(has_message_bytes(k)));
                assert(fb == b.drop_last().filter(has_message_bytes(k)));
            }
        }
        lemma_sorted_same_runs_equal(a.drop_last(), b.drop_last());
        assert(a =~= a.drop_last().push(x));
        assert(b =~= b.drop_last().push(y));
    }
}

/// A sequence of fortunes has one stable sort only: any two results of sorting it agree.
pub proof fn lemma_stable_sort_unique(a: Seq<Fortune>, b: Seq<Fortune>, input: Seq<Fortune>)
    requires
        is_stable_sort_of(a, input),
        is_stable_sort_of(b, input),
    ensures
        a == b,
{
    vstd::seq_lib::to_multiset_len(a);
    vstd::seq_lib::to_multiset_len(b);
    assert forall|k: Seq<u8>|
        #[trigger] a.filter(has_message_bytes(k)) == b.filter(has_message_bytes(k)) by {
        assert(a.filter(has_message_bytes(k)) == input.filter(has_message_bytes(k)));
        assert(b.filter(has_message_bytes(k)) == input.filter(has_message_bytes(k)));
    }
    lemma_sorted_same_runs_equal(a, b);
}

/// Sorting fortunes that are already in order leaves them as they are.
pub proof fn lemma_stable_sort_of_sorted(s: Seq<Fortune>, sorted: Seq<Fortune>)
    requires
        sorted_by_message(s),
        is_stable_sort_of(sorted, s),
    ensures
        sorted == s,
{
    lemma_stable_sort_unique(sorted, s, s);
}

/// A page lists every row it was given and the additional fortune, each once: one fortune more
/// than the table has rows.
pub proof fn lemma_page_holds_rows_and_extra(page: Seq<Fortune>, rows: Seq<Fortune>, extra: Fortune)
    requires
        is_stable_sort_of(page, rows.push(extra)),
    ensures
        page.len() == rows.len() + 1,
        page.to_multiset() == rows.to_multiset().insert(extra),
        page.contains(extra),
{
    vstd::seq_lib::to_multiset_build(rows, extra);
    vstd::seq_lib::to_multiset_len(page);
    vstd::seq_lib::to_multiset_len(rows.push(extra));
    vstd::seq_lib::to_multiset_contains(page, extra);
}

/// In a page sorted by message, where the UTF-8 bytes of an earlier fortune's whole message and
/// of a later one's first differ, the earlier one has the smaller byte, however long the part
/// they share.
pub proof fn lemma_sorted_page_first_difference(page: Seq<Fortune>, i: int, j: int, n: int)
    requires
        sorted_by_message(page),
        0 <= i < j < page.len(),
        0 <= n < encode_utf8(page[i].message@).len(),
        n < encode_utf8(page[j].message@).len(),
        encode_utf8(page[i].message@).take(n) == encode_utf8(page[j].message@).take(n),
        encode_utf8(page[i].message@)[n] != encode_utf8(page[j].message@)[n],
    ensures
        encode_utf8(page[i].message@)[n] < encode_utf8(page[j].message@)[n],
{
    let mi = encode_utf8(page[i].message@);
    let mj = encode_utf8(page[j].message@);
    assert(!bytes_lt(message_bytes(page[j]), message_bytes(page[i])));
    crate::order::lemma_bytes_lt_first_difference(mi, mj, n);
}

/// In a page sorted by message, a fortune never comes after one whose message is a longer text
/// that begins with its own: the shorter message comes first.
pub proof fn lemma_sorted_page_prefix_first(page: Seq<Fortune>, i: int, j: int)
    requires
        sorted_by_message(page),
        0 <= i < j < page.len(),
    ensures
        !(encode_utf8(page[j].message@).len() < encode_utf8(page[i].message@).len()
            && encode_utf8(page[i].message@).take(encode_utf8(page[j].message@).len() as int)
            == encode_utf8(page[j].message@)),
{
    let mi = encode_utf8(page[i].message@);
    let mj = encode_utf8(page[j].message@);
    assert(!bytes_lt(message_bytes(page[j]), message_bytes(page[i])));
    if mj.len() < mi.len() && mi.take(mj.len() as int) == mj {
        crate::order::lemma_bytes_lt_proper_prefix(mj, mi);
    }
}

/// The fortune every page adds to the rows it read: id 0, "Additional fortune added at request
/// time."
pub open spec fn is_additional_fortune(f: Fortune) -> bool {
    f.id == 0 && f.message@ == "Additional fortune added at request time."@
}

/// The fortune every page adds to the rows it read.
pub fn additional_fortune() -> (f: Fortune)
    ensures
        is_additional_fortune(f),
{
    Fortune { id: 0, message: "Additional fortune added at request time.".to_owned() }
}

/// What the fortunes handler got from the database.
pub enum FortunesQuery {
    /// No database is configured.
    NoDatabase,
    /// The query failed.
    Failed,
    /// The rows of the `fortune` table.
    Rows(Vec<Fortune>),
}

/// How the fortunes handler answers.
pub enum FortunesReply {
    /// `503 Service Unavailable`.
    ServiceUnavailable,
    /// `500 Internal Server Error`.
    InternalServerError,
    /// `200 OK` with the page listing these fortunes, in this order.
    Page(Vec<Fortune>),
}

impl FortunesReply {
    /// The HTTP status code of the reply.
    pub fn status(&self) -> (code: u16)
        ensures
            code == match self {
                FortunesReply::ServiceUnavailable => 503u16,
                FortunesReply::InternalServerError => 500u16,
                FortunesReply::Page(_) => 200u16,
            },
    {
        match self {
            FortunesReply::ServiceUnavailable => 503,
            FortunesReply::InternalServerError => 500,
            FortunesReply::Page(_) => 200,
        }
    }
}

/// The value of the `Content-Type` header of a fortunes page.
pub const FORTUNES_CONTENT_TYPE: &'static str = "text/html; charset=utf-8";

/// Decides the fortunes reply: without a database the service is unavailable, a failed query is
/// an internal error, and otherwise the page lists the rows together with the additional fortune,
/// ordered by message.
pub fn fortunes(query: FortunesQuery) -> (reply: FortunesReply)
    ensures
        match query {
            FortunesQuery::NoDatabase => reply is ServiceUnavailable,
            FortunesQuery::Failed => reply is InternalServerError,
            FortunesQuery::Rows(rows) => reply matches FortunesReply::Page(page) && exists|
                extra: Fortune,
            |
                is_additional_fortune(extra) && is_stable_sort_of(page@, rows@.push(extra)),
        },
{
    match query {
        FortunesQuery::NoDatabase => FortunesReply::ServiceUnavailable,
        FortunesQuery::Failed => FortunesReply::InternalServerError,
        FortunesQuery::Rows(rows) => {
            let ghost input = rows@;
            let mut all = rows;
            let extra = additional_fortune();
            let ghost extra_spec = extra;
            all.push(extra);
            let page = sort_fortunes(all);
            assert(is_additional_fortune(extra_spec) && is_stable_sort_of(page@, input.push(extra_spec)));
            FortunesReply::Page(page)
        },
    }
}

} // verus!
