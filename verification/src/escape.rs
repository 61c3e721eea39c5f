//! HTML escaping with named entities.

use vstd::prelude::*;
use vstd::std_specs::iter::IteratorSpec;

verus! {

broadcast use vstd::string::group_string_axioms;

/// What one character becomes in escaped text: `<`, `>`, `&` and `"` become the named entities
/// `&lt;`, `&gt;`, `&amp;` and `&quot;`, the apostrophe becomes `&#39;`, and every other
/// character stands for itself.
pub open spec fn escape_char(c: char) -> Seq<char> {
    if c == '<' {
        seq!['&', 'l', 't', ';']
    } else if c == '>' {
        seq!['&', 'g', 't', ';']
    } else if c == '&' {
        seq!['&', 'a', 'm', 'p', ';']
    } else if c == '"' {
        seq!['&', 'q', 'u', 'o', 't', ';']
    } else if c == '\'' {
        seq!['&', '#', '3', '9', ';']
    } else {
        seq![c]
    }
}

/// The escaped form of `s`: every character replaced by `escape_char` of it, in order.
pub open spec fn escape_html(s: Seq<char>) -> Seq<char>
    decreases s.len(),
{
    if s.len() == 0 {
        Seq::empty()
    } else {
        escape_char(s[0]) + escape_html(s.drop_first())
    }
}

/// `String::push`: appends the character `c` at the end of `s`.
#[verifier::external_body]
fn push_char(s: &mut String, c: char)
    ensures
        final(s)@ == old(s)@.push(c),
{
    s.push(c)
}

/// Escaping distributes over concatenation.
pub proof fn lemma_escape_html_add(a: Seq<char>, b: Seq<char>)
    ensures
        escape_html(a + b) == escape_html(a) + escape_html(b),
    decreases a.len(),
{
    if a.len() == 0 {
        assert(a + b =~= b);
        assert(escape_html(a) + escape_html(b) =~= escape_html(b));
    } else {
        assert((a + b).drop_first() =~= a.drop_first() + b);
        lemma_escape_html_add(a.drop_first(), b);
        assert(escape_html(a + b) =~= escape_html(a) + escape_html(b));
    }
}

/// Reads the five entities of `escape_char` back into the characters they stand for; every
/// other character is kept as it is.
pub open spec fn unescape_html(t: Seq<char>) -> Seq<char>
    decreases t.len(),
{
    if t.len() == 0 {
        Seq::empty()
    } else if t.len() >= 4 && t.take(4) == seq!['&', 'l', 't', ';'] {
        seq!['<'] + unescape_html(t.skip(4))
    } else if t.len() >= 4 && t.take(4) == seq!['&', 'g', 't', ';'] {
        seq!['>'] + unescape_html(t.skip(4))
    } else if t.len() >= 5 && t.take(5) == seq!['&', 'a', 'm', 'p', ';'] {
        seq!['&'] + unescape_html(t.skip(5))
    } else if t.len() >= 6 && t.take(6) == seq!['&', 'q', 'u', 'o', 't', ';'] {
        seq!['"'] + unescape_html(t.skip(6))
    } else if t.len() >= 5 && t.take(5) == seq!['&', '#', '3', '9', ';'] {
        seq!['\''] + unescape_html(t.skip(5))
    } else {
        seq![t[0]] + unescape_html(t.drop_first())
    }
}

/// Escaped text reads back to the text it came from.
pub proof fn lemma_unescape_escape_html(s: Seq<char>)
    ensures
        unescape_html(escape_html(s)) == s,
    decreases s.len(),
{
    if s.len() == 0 {
        assert(escape_html(s) =~= Seq::<char>::empty());
        assert(s =~= Seq::<char>::empty());
    } else {
        let c: char = s[0];
        let rest = s.drop_first();
        let e = escape_char(c);
        let t = escape_html(s);
        lemma_unescape_escape_html(rest);
        assert(t == e + escape_html(rest));
        assert(t.skip(e.len() as int) =~= escape_html(rest));
        assert(t.take(e.len() as int) =~= e);
        assert(t[0] == e[0]);
        if c == '<' || c == '>' || c == '&' || c == '"' || c == '\'' {
            assert(t.take(4) =~= e.take(4));
            if e.len() >= 5 {
                assert(t.take(5) =~= e.take(5));
            }
            if e.len() >= 6 {
                assert(t.take(6) =~= e.take(6));
            }
        } else {
            assert(t[0] != '&');
            assert(t.len() >= 4 ==> t.take(4)[0] != '&');
            assert(t.len() >= 5 ==> t.take(5)[0] != '&');
            assert(t.len() >= 6 ==> t.take(6)[0] != '&');
            assert(t.drop_first() =~= escape_html(rest));
        }
        assert(unescape_html(t) =~= s);
    }
}

/// Different texts never escape to the same text.
pub proof fn lemma_escape_html_injective(a: Seq<char>, b: Seq<char>)
    requires
        escape_html(a) == escape_html(b),
    ensures
        a == b,
{
    lemma_unescape_escape_html(a);
    lemma_unescape_escape_html(b);
}

/// Escaped text holds none of `<`, `>`, `"` and `'`.
pub proof fn lemma_escape_html_no_markup(s: Seq<char>)
    ensures
        forall|i: int|
            0 <= i < escape_html(s).len() ==> {
                let c = #[trigger] escape_html(s)[i];
                c != '<' && c != '>' && c != '"' && c != '\''
            },
    decreases s.len(),
{
    if s.len() > 0 {
        lemma_escape_html_no_markup(s.drop_first());
        let e = escape_char(s[0]);
        let r = escape_html(s.drop_first());
        assert forall|i: int| 0 <= i < escape_html(s).len() implies {
            let c = #[trigger] escape_html(s)[i];
            c != '<' && c != '>' && c != '"' && c != '\''
        } by {
            if i >= e.len() {
                assert(escape_html(s)[i] == r[i - e.len()]);
            }
        }
    }
}

/// Escaping one more character appends its replacement.
proof fn lemma_escape_html_push(s: Seq<char>, c: char)
    ensures
        escape_html(s.push(c)) == escape_html(s) + escape_char(c),
{
    lemma_escape_html_add(s, seq![c]);
    assert(s.push(c) =~= s + seq![c]);
    assert(seq![c].drop_first() =~= Seq::<char>::empty());
    assert(escape_html(seq![c].drop_first()) =~= Seq::<char>::empty());
    assert(escape_html(seq![c]) =~= escape_char(c));
}

/// Escapes text for an HTML page with named entities, so that a page writing `<script>` shows
/// `&lt;script&gt;`.
#[derive(Clone, Copy, Debug)]
pub struct NamedHtmlEscaper;

impl NamedHtmlEscaper {
    /// Appends the escaped form of `s` to `dest`; appending to a `String` cannot fail, so there
    /// is no error to report.
    pub fn write_escaped_str(&self, dest: &mut String, s: &str)
        ensures
            final(dest)@ == old(dest)@ + escape_html(s@),
    {
        let ghost start = dest@;
        let chars = s.chars();
        for c in it: chars
            invariant
                chars == vstd::string::spec_iter(s),
                it.seq() == s@,
                dest@ == start + escape_html(it.history()),
                it.history() =~= s@.take(it.index()),
            ensures
                dest@ == start + escape_html(s@.take(s@.len() as int)),
        {
            proof {
                lemma_escape_html_push(it.history(), c);
                reveal_strlit("&lt;");
                reveal_strlit("&gt;");
                reveal_strlit("&amp;");
                reveal_strlit("&quot;");
                reveal_strlit("&#39;");
            }
            if c == '<' {
                dest.append("&lt;");
            } else if c == '>' {
                dest.append("&gt;");
            } else if c == '&' {
                dest.append("&amp;");
            } else if c == '"' {
                dest.append("&quot;");
            } else if c == '\'' {
                dest.append("&#39;");
            } else {
                push_char(dest, c);
            }
            assert(dest@ =~= start + escape_html(it.history().push(c)));
        }
        assert(s@.take(s@.len() as int) =~= s@);
    }
}

/// Whether escaping replaces `c`: the five characters that `escape_char` turns into entities.
pub open spec fn is_special(c: char) -> bool {
    c == '<' || c == '>' || c == '&' || c == '"' || c == '\''
}

/// How far the writes of escaped text have come once `t` has been read: the pieces handed out
/// so far, and the run of plain characters read since the last special one, not yet handed out.
/// A special character hands out the run before it (empty where there is none) and then its
/// entity.
pub open spec fn split_escaped(t: Seq<char>) -> (Seq<Seq<char>>, Seq<char>)
    decreases t.len(),
{
    if t.len() == 0 {
        (Seq::empty(), Seq::empty())
    } else {
        let before = split_escaped(t.drop_last());
        let c = t.last();
        if is_special(c) {
            (before.0.push(before.1).push(escape_char(c)), Seq::empty())
        } else {
            (before.0, before.1.push(c))
        }
    }
}

/// The writes that escaping `s` makes, in order: for each special character the run of plain
/// characters before it and then its entity, and at the end the run left over. A run may be
/// empty, so `""` takes one write of `""`, and `"<"` takes `""`, `"&lt;"` and `""`.
pub open spec fn escape_pieces(s: Seq<char>) -> Seq<Seq<char>> {
    split_escaped(s).0.push(split_escaped(s).1)
}

/// The pieces handed out so far, followed by the run not yet handed out, spell the escaped
/// form of what has been read.
proof fn lemma_split_escaped_flatten(t: Seq<char>)
    ensures
        split_escaped(t).0.flatten() + split_escaped(t).1 == escape_html(t),
    decreases t.len(),
{
    if t.len() == 0 {
        assert(split_escaped(t).0.flatten() + split_escaped(t).1 =~= Seq::<char>::empty());
        assert(escape_html(t) =~= Seq::<char>::empty());
    } else {
        let u = t.drop_last();
        let c = t.last();
        let d = split_escaped(u).0;
        let r = split_escaped(u).1;
        lemma_split_escaped_flatten(u);
        assert(u.push(c) =~= t);
        lemma_escape_html_push(u, c);
        if is_special(c) {
            d.lemma_flatten_push(r);
            d.push(r).lemma_flatten_push(escape_char(c));
            assert(split_escaped(t).0.flatten() + split_escaped(t).1 =~= escape_html(t));
        } else {
            assert(escape_char(c) =~= seq![c]);
            assert(split_escaped(t).0.flatten() + split_escaped(t).1 =~= escape_html(t));
        }
    }
}

/// The writes that escaping makes spell, together, exactly the escaped text.
pub proof fn lemma_escape_pieces_flatten(s: Seq<char>)
    ensures
        escape_pieces(s).flatten() == escape_html(s),
{
    lemma_split_escaped_flatten(s);
    split_escaped(s).0.lemma_flatten_push(split_escaped(s).1);
}

/// Whatever number `k` of the writes has been made, what they wrote is a prefix of the escaped
/// text, and the writes still to come spell the rest of it.
pub proof fn lemma_escape_pieces_prefix(s: Seq<char>, k: int)
    requires
        0 <= k <= escape_pieces(s).len(),
    ensures
        escape_pieces(s).take(k).flatten().is_prefix_of(escape_html(s)),
        escape_pieces(s).take(k).flatten() + escape_pieces(s).skip(k).flatten() == escape_html(s),
{
    let p = escape_pieces(s);
    lemma_escape_pieces_flatten(s);
    vstd::seq_lib::lemma_flatten_concat(p.take(k), p.skip(k));
    assert(p.take(k) + p.skip(k) =~= p);
    let w = p.take(k).flatten();
    assert(escape_html(s).take(w.len() as int) =~= w);
}

/// The text of each string in `v`.
pub open spec fn piece_views(v: Seq<String>) -> Seq<Seq<char>> {
    Seq::new(v.len(), |i: int| v[i]@)
}

/// The entity that replaces a special character.
fn entity(c: char) -> (e: String)
    requires
        is_special(c),
    ensures
        e@ == escape_char(c),
{
    proof {
        reveal_strlit("&lt;");
        reveal_strlit("&gt;");
        reveal_strlit("&amp;");
        reveal_strlit("&quot;");
        reveal_strlit("&#39;");
    }
    if c == '<' {
        "&lt;".to_owned()
    } else if c == '>' {
        "&gt;".to_owned()
    } else if c == '&' {
        "&amp;".to_owned()
    } else if c == '"' {
        "&quot;".to_owned()
    } else {
        "&#39;".to_owned()
    }
}

/// The error of an escaped write whose destination refused a piece.
#[derive(Clone, Copy, Debug, PartialEq, Eq, Structural)]
pub struct WriteRefused;

/// An escaped write into a destination that may refuse a piece: it hands out the pieces of
/// `escape_pieces` one at a time, is told whether the destination took each, and stops at the
/// first one refused.
pub struct EscapedWrite {
    pieces: Vec<String>,
    accepted: usize,
    refused: bool,
}

impl EscapedWrite {
    #[verifier::type_invariant]
    spec fn well_formed(self) -> bool {
        self.accepted <= self.pieces.len()
    }

    /// The pieces of the whole write, in order.
    pub closed spec fn pieces(self) -> Seq<Seq<char>> {
        piece_views(self.pieces@)
    }

    /// How many pieces the destination has taken.
    pub closed spec fn accepted(self) -> nat {
        self.accepted as nat
    }

    /// Whether the destination has refused a piece.
    pub closed spec fn refused(self) -> bool {
        self.refused
    }

    /// The piece to write next: the first one not yet taken, while none has been refused.
    pub fn next_piece(&self) -> (p: Option<&str>)
        ensures
            self.accepted() <= self.pieces().len(),
            p is Some <==> !self.refused() && self.accepted() < self.pieces().len(),
            match p {
                Some(t) => t@ == self.pieces()[self.accepted() as int],
                None => true,
            },
    {
        proof {
            use_type_invariant(self);
        }
        if !self.refused && self.accepted < self.pieces.len() {
            Some(self.pieces[self.accepted].as_str())
        } else {
            None
        }
    }

    /// Records whether the destination took the piece that `next_piece` handed out. Once a
    /// piece is refused, or every piece taken, nothing changes any more.
    pub fn record(&mut self, taken: bool)
        ensures
            final(self).pieces() == old(self).pieces(),
            final(self).accepted() <= final(self).pieces().len(),
            old(self).refused() || old(self).accepted() == old(self).pieces().len() ==> {
                &&& final(self).accepted() == old(self).accepted()
                &&& final(self).refused() == old(self).refused()
            },
            !old(self).refused() && old(self).accepted() < old(self).pieces().len() && taken ==> {
                &&& final(self).accepted() == old(self).accepted() + 1
                &&& !final(self).refused()
            },
            !old(self).refused() && old(self).accepted() < old(self).pieces().len() && !taken ==> {
                &&& final(self).accepted() == old(self).accepted()
                &&& final(self).refused()
            },
    {
        proof {
            use_type_invariant(&*self);
        }
        if !self.refused && self.accepted < self.pieces.len() {
            if taken {
                self.accepted = self.accepted + 1;
            } else {
                self.refused = true;
            }
        }
    }

    /// How the write ended: `Err` once a piece was refused, `Ok` once every piece was taken,
    /// and `None` while pieces remain.
    pub fn outcome(&self) -> (r: Option<Result<(), WriteRefused>>)
        ensures
            self.refused() ==> r == Some(Err::<(), WriteRefused>(WriteRefused)),
            !self.refused() && self.accepted() == self.pieces().len() ==> r == Some(
                Ok::<(), WriteRefused>(()),
            ),
            !self.refused() && self.accepted() != self.pieces().len() ==> r is None,
    {
        if self.refused {
            Some(Err(WriteRefused))
        } else if self.accepted == self.pieces.len() {
            Some(Ok(()))
        } else {
            None
        }
    }
}

impl NamedHtmlEscaper {
    /// Starts an escaped write of `s` into a destination that may refuse a piece: the pieces
    /// are those of `escape_pieces`, none taken yet.
    pub fn start_write(&self, s: &str) -> (w: EscapedWrite)
        ensures
            w.pieces() == escape_pieces(s@),
            w.accepted() == 0,
            !w.refused(),
    {
        let mut pieces: Vec<String> = Vec::new();
        let mut run: String = String::new();
        let chars = s.chars();
        for c in it: chars
            invariant
                chars == vstd::string::spec_iter(s),
                it.seq() == s@,
                it.history() =~= s@.take(it.index()),
                piece_views(pieces@) == split_escaped(it.history()).0,
                run@ == split_escaped(it.history()).1,
            ensures
                piece_views(pieces@) == split_escaped(s@.take(s@.len() as int)).0,
                run@ == split_escaped(s@.take(s@.len() as int)).1,
        {
            let ghost t = it.history().push(c);
            assert(t.drop_last() =~= it.history());
            assert(t.last() == c);
            if c == '<' || c == '>' || c == '&' || c == '"' || c == '\'' {
                let e = entity(c);
                pieces.push(run);
                pieces.push(e);
                run = String::new();
                assert(piece_views(pieces@) =~= split_escaped(t).0);
            } else {
                push_char(&mut run, c);
            }
        }
        assert(s@.take(s@.len() as int) =~= s@);
        pieces.push(run);
        assert(piece_views(pieces@) =~= escape_pieces(s@));
        EscapedWrite { pieces, accepted: 0, refused: false }
    }
}

} // verus!
