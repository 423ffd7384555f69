//! Byte-level text helpers: trimming, searching, splitting a text into
//! lines, and splitting a line into space-separated tokens. Every
//! executable function is specified exactly against a spec function.

use vstd::prelude::*;

verus! {

/// A byte vector's deep view is its view.
pub broadcast proof fn lemma_bytes_deep_view(v: Vec<u8>)
    ensures
        #[trigger] v.deep_view() == v@,
{
    assert(v.deep_view() =~= v@);
}

/// Bytes that count as surrounding whitespace when a line is trimmed.
pub open spec fn is_ws(b: u8) -> bool {
    b == 32 || b == 9 || b == 13 || b == 10 || b == 11 || b == 12
}

/// Bytes stripped from both ends of a key or a value: spaces and double quotes.
pub open spec fn is_space_or_quote(b: u8) -> bool {
    b == 32 || b == 34
}

/// The whitespace predicate as a reusable spec closure.
pub open spec fn ws_pred() -> spec_fn(u8) -> bool {
    |b: u8| is_ws(b)
}

/// The space-or-quote predicate as a reusable spec closure.
pub open spec fn sq_pred() -> spec_fn(u8) -> bool {
    |b: u8| is_space_or_quote(b)
}

/// Drops leading bytes while they satisfy `p`.
pub open spec fn trim_start_by(s: Seq<u8>, p: spec_fn(u8) -> bool) -> Seq<u8>
    decreases s.len(),
{
    if s.len() > 0 && p(s[0]) {
        trim_start_by(s.drop_first(), p)
    } else {
        s
    }
}

/// Drops trailing bytes while they satisfy `p`.
pub open spec fn trim_end_by(s: Seq<u8>, p: spec_fn(u8) -> bool) -> Seq<u8>
    decreases s.len(),
{
    if s.len() > 0 && p(s[s.len() - 1]) {
        trim_end_by(s.drop_last(), p)
    } else {
        s
    }
}

/// Drops bytes satisfying `p` from both ends.
pub open spec fn trim_by(s: Seq<u8>, p: spec_fn(u8) -> bool) -> Seq<u8> {
    trim_end_by(trim_start_by(s, p), p)
}

fn is_ws_byte(b: u8) -> (r: bool)
    ensures
        r == is_ws(b),
{
    b == 32 || b == 9 || b == 13 || b == 10 || b == 11 || b == 12
}

fn is_space_or_quote_byte(b: u8) -> (r: bool)
    ensures
        r == is_space_or_quote(b),
{
    b == 32 || b == 34
}

/// Trims surrounding whitespace from a line of bytes.
pub fn trim_ws(s: &[u8]) -> (r: Vec<u8>)
    ensures
        r@ == trim_by(s@, ws_pred()),
{
    let mut lo: usize = 0;
    proof {
        assert(s@.skip(0) =~= s@);
    }
    while lo < s.len() && is_ws_byte(s[lo])
        invariant
            lo <= s@.len(),
            trim_start_by(s@, ws_pred()) == trim_start_by(s@.skip(lo as int), ws_pred()),
        decreases s@.len() - lo,
    {
        proof {
            assert(s@.skip(lo as int).drop_first() =~= s@.skip(lo as int + 1));
        }
        lo = lo + 1;
    }
    proof {
        assert(trim_start_by(s@, ws_pred()) == s@.skip(lo as int));
        assert(s@.skip(lo as int) =~= s@.subrange(lo as int, s@.len() as int));
    }
    let mut hi: usize = s.len();
    while hi > lo && is_ws_byte(s[hi - 1])
        invariant
            lo <= hi <= s@.len(),
            trim_by(s@, ws_pred()) == trim_end_by(s@.subrange(lo as int, hi as int), ws_pred()),
        decreases hi,
    {
        proof {
            assert(s@.subrange(lo as int, hi as int).drop_last() =~= s@.subrange(
                lo as int,
                hi as int - 1,
            ));
        }
        hi = hi - 1;
    }
    proof {
        assert(trim_end_by(s@.subrange(lo as int, hi as int), ws_pred()) == s@.subrange(
            lo as int,
            hi as int,
        ));
    }
    vstd::slice::slice_to_vec(vstd::slice::slice_subrange(s, lo, hi))
}

/// Trims surrounding spaces and double quotes from a key or a value.
pub fn trim_space_quote(s: &[u8]) -> (r: Vec<u8>)
    ensures
        r@ == trim_by(s@, sq_pred()),
{
    let mut lo: usize = 0;
    proof {
        assert(s@.skip(0) =~= s@);
    }
    while lo < s.len() && is_space_or_quote_byte(s[lo])
        invariant
            lo <= s@.len(),
            trim_start_by(s@, sq_pred()) == trim_start_by(s@.skip(lo as int), sq_pred()),
        decreases s@.len() - lo,
    {
        proof {
            assert(s@.skip(lo as int).drop_first() =~= s@.skip(lo as int + 1));
        }
        lo = lo + 1;
    }
    proof {
        assert(trim_start_by(s@, sq_pred()) == s@.skip(lo as int));
        assert(s@.skip(lo as int) =~= s@.subrange(lo as int, s@.len() as int));
    }
    let mut hi: usize = s.len();
    while hi > lo && is_space_or_quote_byte(s[hi - 1])
        invariant
            lo <= hi <= s@.len(),
            trim_by(s@, sq_pred()) == trim_end_by(s@.subrange(lo as int, hi as int), sq_pred()),
        decreases hi,
    {
        proof {
            assert(s@.subrange(lo as int, hi as int).drop_last() =~= s@.subrange(
                lo as int,
                hi as int - 1,
            ));
        }
        hi = hi - 1;
    }
    proof {
        assert(trim_end_by(s@.subrange(lo as int, hi as int), sq_pred()) == s@.subrange(
            lo as int,
            hi as int,
        ));
    }
    vstd::slice::slice_to_vec(vstd::slice::slice_subrange(s, lo, hi))
}

/// Position of the first occurrence of `b` in `s`, if any.
pub open spec fn find_byte_spec(s: Seq<u8>, b: u8) -> Option<int>
    decreases s.len(),
{
    if s.len() == 0 {
        None
    } else if s[0] == b {
        Some(0int)
    } else {
        match find_byte_spec(s.drop_first(), b) {
            None => None,
            Some(i) => Some(i + 1),
        }
    }
}

/// What `find_byte_spec` returns: the position holds `b` and nothing
/// before it does; `None` means `b` does not occur at all.
pub proof fn lemma_find_byte_props(s: Seq<u8>, b: u8)
    ensures
        match find_byte_spec(s, b) {
            Some(i) => 0 <= i < s.len() && s[i] == b && (forall|j: int| 0 <= j < i ==> s[j] != b),
            None => forall|j: int| 0 <= j < s.len() ==> s[j] != b,
        },
    decreases s.len(),
{
    if s.len() > 0 && s[0] != b {
        lemma_find_byte_props(s.drop_first(), b);
        match find_byte_spec(s.drop_first(), b) {
            Some(i) => {
                assert(s.drop_first()[i] == s[i + 1]);
                assert forall|j: int| 0 <= j < i + 1 implies s[j] != b by {
                    if j > 0 {
                        assert(s.drop_first()[j - 1] != b);
                    }
                }
            },
            None => {
                assert forall|j: int| 0 <= j < s.len() implies s[j] != b by {
                    if j > 0 {
                        assert(s.drop_first()[j - 1] != b);
                    }
                }
            },
        }
    }
}

/// A position holding `b` with no earlier occurrence is what
/// `find_byte_spec` returns.
pub proof fn lemma_find_byte_at(s: Seq<u8>, b: u8, i: int)
    requires
        0 <= i < s.len(),
        s[i] == b,
        forall|j: int| 0 <= j < i ==> s[j] != b,
    ensures
        find_byte_spec(s, b) == Some(i),
    decreases i,
{
    if i > 0 {
        lemma_find_byte_at(s.drop_first(), b, i - 1);
    }
}

/// Finds the first occurrence of `b` in `s`.
pub fn find_byte(s: &[u8], b: u8) -> (r: Option<usize>)
    ensures
        match r {
            Some(i) => find_byte_spec(s@, b) == Some(i as int),
            None => find_byte_spec(s@, b) is None,
        },
{
    let mut i: usize = 0;
    while i < s.len()
        invariant
            i <= s@.len(),
            forall|j: int| 0 <= j < i ==> s@[j] != b,
        decreases s@.len() - i,
    {
        if s[i] == b {
            proof {
                lemma_find_byte_at(s@, b, i as int);
            }
            return Some(i);
        }
        i = i + 1;
    }
    proof {
        lemma_find_byte_props(s@, b);
        if find_byte_spec(s@, b) is Some {
            assert(false);
        }
    }
    None
}

/// Compares two byte strings for equality.
pub fn bytes_eq(a: &[u8], b: &[u8]) -> (r: bool)
    ensures
        r == (a@ == b@),
{
    if a.len() != b.len() {
        proof {
            assert(a@ != b@);
        }
        return false;
    }
    let mut i: usize = 0;
    while i < a.len()
        invariant
            i <= a@.len(),
            a@.len() == b@.len(),
            forall|j: int| 0 <= j < i ==> a@[j] == b@[j],
        decreases a@.len() - i,
    {
        if a[i] != b[i] {
            proof {
                assert(a@ != b@);
            }
            return false;
        }
        i = i + 1;
    }
    proof {
        assert(a@ =~= b@);
    }
    true
}

/// Drops a single carriage return at the end of a line, if present.
pub open spec fn strip_cr(s: Seq<u8>) -> Seq<u8> {
    if s.len() > 0 && s[s.len() - 1] == 13 {
        s.drop_last()
    } else {
        s
    }
}

/// The lines of `s` when the bytes still to scan are `s` and the current,
/// unfinished line is `cur`: lines end at a line feed, a carriage return
/// just before the line feed is dropped, and a final line ending is optional.
pub open spec fn lines_rec(s: Seq<u8>, cur: Seq<u8>) -> Seq<Seq<u8>>
    decreases s.len(),
{
    if s.len() == 0 {
        if cur.len() == 0 {
            Seq::empty()
        } else {
            seq![strip_cr(cur)]
        }
    } else if s[0] == 10 {
        seq![strip_cr(cur)] + lines_rec(s.drop_first(), Seq::empty())
    } else {
        lines_rec(s.drop_first(), cur.push(s[0]))
    }
}

/// The lines of a configuration text.
pub open spec fn lines_spec(s: Seq<u8>) -> Seq<Seq<u8>> {
    lines_rec(s, Seq::empty())
}

fn finish_line(mut cur: Vec<u8>) -> (r: Vec<u8>)
    ensures
        r@ == strip_cr(cur@),
{
    let ghost orig = cur@;
    if cur.len() > 0 && cur[cur.len() - 1] == 13 {
        let _last = cur.pop();
        proof {
            assert(cur@ =~= strip_cr(orig));
        }
    }
    cur
}

/// Splits a configuration text into its lines.
pub fn split_lines(s: &[u8]) -> (r: Vec<Vec<u8>>)
    ensures
        r.deep_view() == lines_spec(s@),
{
    let mut out: Vec<Vec<u8>> = Vec::new();
    let mut cur: Vec<u8> = Vec::new();
    let mut i: usize = 0;
    proof {
        assert(s@.skip(0) =~= s@);
        assert(out.deep_view() =~= Seq::<Seq<u8>>::empty());
    }
    while i < s.len()
        invariant
            i <= s@.len(),
            lines_spec(s@) == out.deep_view() + lines_rec(s@.skip(i as int), cur@),
        decreases s@.len() - i,
    {
        let ghost prev_out = out.deep_view();
        let ghost prev_cur = cur@;
        proof {
            assert(s@.skip(i as int).drop_first() =~= s@.skip(i as int + 1));
            assert(s@.skip(i as int)[0] == s@[i as int]);
        }
        let b = s[i];
        if b == 10 {
            let done = finish_line(cur);
            let ghost done_view = done@;
            out.push(done);
            cur = Vec::new();
            proof {
                assert(out@[out@.len() - 1].deep_view() =~= done_view);
                assert(out.deep_view() =~= prev_out.push(strip_cr(prev_cur)));
                assert(prev_out + (seq![strip_cr(prev_cur)] + lines_rec(
                    s@.skip(i as int + 1),
                    Seq::empty(),
                )) =~= out.deep_view() + lines_rec(s@.skip(i as int + 1), cur@));
            }
        } else {
            cur.push(b);
        }
        i = i + 1;
    }
    if cur.len() > 0 {
        let ghost prev_out = out.deep_view();
        let ghost prev_cur = cur@;
        let done = finish_line(cur);
        let ghost done_view = done@;
        out.push(done);
        proof {
            assert(out@[out@.len() - 1].deep_view() =~= done_view);
            assert(out.deep_view() =~= prev_out.push(strip_cr(prev_cur)));
            assert(prev_out + seq![strip_cr(prev_cur)] =~= out.deep_view());
            assert(out.deep_view() =~= lines_spec(s@));
        }
    } else {
        proof {
            assert(out.deep_view() + lines_rec(s@.skip(s@.len() as int), cur@) =~= out.deep_view());
        }
    }
    out
}

/// The space-separated tokens of `s` when the bytes still to scan are `s`
/// and the token being collected is `cur`. Every space ends a token, so
/// adjacent spaces produce empty tokens and the result is never empty.
pub open spec fn split_rec(s: Seq<u8>, cur: Seq<u8>) -> Seq<Seq<u8>>
    decreases s.len(),
{
    if s.len() == 0 {
        seq![cur]
    } else if s[0] == 32 {
        seq![cur] + split_rec(s.drop_first(), Seq::empty())
    } else {
        split_rec(s.drop_first(), cur.push(s[0]))
    }
}

/// The space-separated tokens of a command line.
pub open spec fn split_spaces_spec(s: Seq<u8>) -> Seq<Seq<u8>> {
    split_rec(s, Seq::empty())
}

/// Splitting always yields at least one token.
pub proof fn lemma_split_nonempty(s: Seq<u8>, cur: Seq<u8>)
    ensures
        split_rec(s, cur).len() >= 1,
    decreases s.len(),
{
    if s.len() > 0 && s[0] != 32 {
        lemma_split_nonempty(s.drop_first(), cur.push(s[0]));
    }
}

/// Splits a command line into its space-separated tokens.
pub fn split_spaces(s: &[u8]) -> (r: Vec<Vec<u8>>)
    ensures
        r.deep_view() == split_spaces_spec(s@),
        r.len() >= 1,
{
    let mut out: Vec<Vec<u8>> = Vec::new();
    let mut cur: Vec<u8> = Vec::new();
    let mut i: usize = 0;
    proof {
        assert(s@.skip(0) =~= s@);
        assert(out.deep_view() =~= Seq::<Seq<u8>>::empty());
    }
    while i < s.len()
        invariant
            i <= s@.len(),
            split_spaces_spec(s@) == out.deep_view() + split_rec(s@.skip(i as int), cur@),
        decreases s@.len() - i,
    {
        let ghost prev_out = out.deep_view();
        let ghost prev_cur = cur@;
        proof {
            assert(s@.skip(i as int).drop_first() =~= s@.skip(i as int + 1));
            assert(s@.skip(i as int)[0] == s@[i as int]);
        }
        let b = s[i];
        if b == 32 {
            out.push(cur);
            cur = Vec::new();
            proof {
                assert(out@[out@.len() - 1].deep_view() =~= prev_cur);
                assert(out.deep_view() =~= prev_out.push(prev_cur));
                assert(prev_out + (seq![prev_cur] + split_rec(s@.skip(i as int + 1), Seq::empty()))
                    =~= out.deep_view() + split_rec(s@.skip(i as int + 1), cur@));
            }
        } else {
            cur.push(b);
        }
        i = i + 1;
    }
    let ghost prev_out = out.deep_view();
    let ghost prev_cur = cur@;
    out.push(cur);
    proof {
        assert(out@[out@.len() - 1].deep_view() =~= prev_cur);
        assert(out.deep_view() =~= prev_out.push(prev_cur));
        assert(prev_out + seq![prev_cur] =~= out.deep_view());
        assert(out.deep_view() =~= split_spaces_spec(s@));
    }
    out
}

/// Joins tokens with a single space between each pair.
pub open spec fn join_spec(parts: Seq<Seq<u8>>) -> Seq<u8>
    decreases parts.len(),
{
    if parts.len() == 0 {
        Seq::empty()
    } else if parts.len() == 1 {
        parts[0]
    } else {
        parts[0] + seq![32u8] + join_spec(parts.drop_first())
    }
}

proof fn lemma_split_join_rec(s: Seq<u8>, cur: Seq<u8>)
    ensures
        join_spec(split_rec(s, cur)) == cur + s,
    decreases s.len(),
{
    if s.len() == 0 {
        assert(join_spec(seq![cur]) =~= cur + s);
    } else if s[0] == 32 {
        lemma_split_join_rec(s.drop_first(), Seq::empty());
        lemma_split_nonempty(s.drop_first(), Seq::empty());
        let parts = seq![cur] + split_rec(s.drop_first(), Seq::empty());
        assert(parts.drop_first() =~= split_rec(s.drop_first(), Seq::empty()));
        assert(parts[0] + seq![32u8] + join_spec(parts.drop_first()) =~= cur + s);
    } else {
        lemma_split_join_rec(s.drop_first(), cur.push(s[0]));
        assert(cur.push(s[0]) + s.drop_first() =~= cur + s);
    }
}

/// Splitting a command line at spaces and rejoining the tokens with
/// single spaces reconstructs the original line.
pub proof fn lemma_split_join_round_trip(s: Seq<u8>)
    ensures
        join_spec(split_spaces_spec(s)) == s,
{
    lemma_split_join_rec(s, Seq::empty());
    assert(Seq::<u8>::empty() + s =~= s);
}

/// Joins tokens with a single space between each pair.
pub fn join_tokens(parts: &Vec<Vec<u8>>) -> (r: Vec<u8>)
    ensures
        r@ == join_spec(parts.deep_view()),
{
    let mut r: Vec<u8> = Vec::new();
    if parts.len() == 0 {
        proof {
            assert(r@ =~= join_spec(parts.deep_view()));
        }
        return r;
    }
    let mut i: usize = 0;
    proof {
        assert(r@ =~= Seq::<u8>::empty());
    }
    while i < parts.len()
        invariant
            i <= parts@.len(),
            parts@.len() >= 1,
            r@ == join_spec(parts.deep_view().take(i as int)),
        decreases parts@.len() - i,
    {
        let ghost prev = r@;
        if i > 0 {
            r.push(32);
        }
        let part = &parts[i];
        let mut j: usize = 0;
        while j < part.len()
            invariant
                j <= part@.len(),
                i < parts@.len(),
                part@ == parts@[i as int]@,
                r@ == (if i > 0 {
                    prev.push(32u8)
                } else {
                    prev
                }) + part@.take(j as int),
            decreases part@.len() - j,
        {
            r.push(part[j]);
            proof {
                assert(part@.take(j as int).push(part@[j as int]) =~= part@.take(j as int + 1));
                assert(((if i > 0 {
                    prev.push(32u8)
                } else {
                    prev
                }) + part@.take(j as int)).push(part@[j as int]) =~= (if i > 0 {
                    prev.push(32u8)
                } else {
                    prev
                }) + part@.take(j as int + 1));
            }
            j = j + 1;
        }
        proof {
            assert(part@.take(part@.len() as int) =~= part@);
            lemma_join_take_step(parts.deep_view(), i as int);
            assert(parts.deep_view()[i as int] == parts@[i as int]@);
        }
        i = i + 1;
    }
    proof {
        assert(parts.deep_view().take(parts@.len() as int) =~= parts.deep_view());
    }
    r
}

/// Extending a joined prefix by one more token appends a space (when the
/// prefix is non-empty) and the token.
proof fn lemma_join_take_step(parts: Seq<Seq<u8>>, i: int)
    requires
        0 <= i < parts.len(),
    ensures
        i == 0 ==> join_spec(parts.take(1)) == parts[0],
        i > 0 ==> join_spec(parts.take(i + 1)) == join_spec(parts.take(i)) + seq![32u8]
            + parts[i],
    decreases i,
{
    if i == 0 {
        assert(parts.take(1).len() == 1);
        assert(join_spec(parts.take(1)) == parts.take(1)[0]);
        assert(parts.take(1)[0] == parts[0]);
    } else {
        lemma_join_parts_split(parts.take(i + 1), parts.take(i), parts[i]);
    }
}

/// Joining `front.push(last)` when `front` is non-empty splits into the
/// join of `front`, a space, and `last`.
proof fn lemma_join_parts_split(whole: Seq<Seq<u8>>, front: Seq<Seq<u8>>, last: Seq<u8>)
    requires
        front.len() >= 1,
        whole =~= front.push(last),
    ensures
        join_spec(whole) == join_spec(front) + seq![32u8] + last,
    decreases front.len(),
{
    if front.len() == 1 {
        assert(whole.len() == 2);
        assert(whole.drop_first() =~= seq![last]);
        assert(join_spec(whole) == whole[0] + seq![32u8] + join_spec(whole.drop_first()));
        assert(whole[0] == front[0]);
        assert(join_spec(front) == front[0]);
    } else {
        assert(whole.drop_first() =~= front.drop_first().push(last));
        lemma_join_parts_split(whole.drop_first(), front.drop_first(), last);
        assert(join_spec(whole) == whole[0] + seq![32u8] + join_spec(whole.drop_first()));
        assert(join_spec(front) == front[0] + seq![32u8] + join_spec(front.drop_first()));
        assert(whole[0] == front[0]);
        assert(whole[0] + seq![32u8] + (join_spec(front.drop_first()) + seq![32u8] + last) =~= (
        front[0] + seq![32u8] + join_spec(front.drop_first())) + seq![32u8] + last);
    }
}

} // verus!
