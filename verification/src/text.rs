//! Whitespace trimming: the step that normalizes a raw input line before it
//! is handed to a parsing function.

use vstd::prelude::*;

verus! {

/// A whitespace character as trimming understands it: space, horizontal tab,
/// and the line-ending and vertical-spacing controls.
pub open spec fn is_blank(c: char) -> bool {
    c == ' ' || c == '\t' || c == '\n' || c == '\r' || c == '\u{b}' || c == '\u{c}'
}

/// `s` with its leading whitespace removed.
pub open spec fn trim_front(s: Seq<char>) -> Seq<char>
    decreases s.len(),
{
    if s.len() > 0 && is_blank(s[0]) {
        trim_front(s.drop_first())
    } else {
        s
    }
}

/// `s` with its trailing whitespace removed.
pub open spec fn trim_back(s: Seq<char>) -> Seq<char>
    decreases s.len(),
{
    if s.len() > 0 && is_blank(s.last()) {
        trim_back(s.drop_last())
    } else {
        s
    }
}

/// `s` with both leading and trailing whitespace removed.
pub open spec fn trim_spec(s: Seq<char>) -> Seq<char> {
    trim_back(trim_front(s))
}

/// Every character of `s` is whitespace.
pub open spec fn all_blank(s: Seq<char>) -> bool {
    forall|i: int| 0 <= i < s.len() ==> is_blank(s[i])
}

proof fn lemma_trim_front_all_blank(p: Seq<char>)
    requires
        all_blank(p),
    ensures
        trim_front(p) == Seq::<char>::empty(),
    decreases p.len(),
{
    if p.len() > 0 {
        lemma_trim_front_all_blank(p.drop_first());
    } else {
        assert(p =~= Seq::<char>::empty());
    }
}

proof fn lemma_trim_back_all_blank(p: Seq<char>)
    requires
        all_blank(p),
    ensures
        trim_back(p) == Seq::<char>::empty(),
    decreases p.len(),
{
    if p.len() > 0 {
        lemma_trim_back_all_blank(p.drop_last());
    } else {
        assert(p =~= Seq::<char>::empty());
    }
}

proof fn lemma_trim_front_concat(s: Seq<char>, p: Seq<char>)
    ensures
        trim_front(s + p) == if trim_front(s).len() > 0 {
            trim_front(s) + p
        } else {
            trim_front(p)
        },
    decreases s.len(),
{
    if s.len() == 0 {
        assert(s + p =~= p);
    } else if is_blank(s[0]) {
        assert((s + p).drop_first() =~= s.drop_first() + p);
        lemma_trim_front_concat(s.drop_first(), p);
    } else {
        assert((s + p)[0] == s[0]);
    }
}

proof fn lemma_trim_back_concat(s: Seq<char>, p: Seq<char>)
    ensures
        trim_back(s + p) == if trim_back(p).len() > 0 {
            s + trim_back(p)
        } else {
            trim_back(s)
        },
    decreases p.len(),
{
    if p.len() == 0 {
        assert(s + p =~= s);
    } else if is_blank(p.last()) {
        assert((s + p).last() == p.last());
        assert((s + p).drop_last() =~= s + p.drop_last());
        lemma_trim_back_concat(s, p.drop_last());
    } else {
        assert((s + p).last() == p.last());
    }
}

/// Law: surrounding whitespace never changes what trimming yields. Any
/// all-whitespace padding on either side of a line leaves the trimmed text,
/// and hence everything parsed from it, unchanged.
pub proof fn lemma_trim_ignores_padding(pl: Seq<char>, s: Seq<char>, pr: Seq<char>)
    requires
        all_blank(pl),
        all_blank(pr),
    ensures
        trim_spec(pl + s + pr) == trim_spec(s),
{
    lemma_trim_front_all_blank(pl);
    lemma_trim_front_concat(pl, s + pr);
    assert(pl + s + pr =~= pl + (s + pr));
    lemma_trim_front_concat(s, pr);
    if trim_front(s).len() > 0 {
        lemma_trim_back_concat(trim_front(s), pr);
        lemma_trim_back_all_blank(pr);
    } else {
        lemma_trim_front_all_blank(pr);
    }
}

proof fn lemma_trim_front_starts_nonblank(s: Seq<char>)
    ensures
        trim_front(s).len() > 0 ==> !is_blank(trim_front(s)[0]),
    decreases s.len(),
{
    if s.len() > 0 && is_blank(s[0]) {
        lemma_trim_front_starts_nonblank(s.drop_first());
    }
}

proof fn lemma_trim_back_ends_nonblank(s: Seq<char>)
    ensures
        trim_back(s).len() > 0 ==> !is_blank(trim_back(s).last()),
    decreases s.len(),
{
    if s.len() > 0 && is_blank(s.last()) {
        lemma_trim_back_ends_nonblank(s.drop_last());
    }
}

proof fn lemma_trim_back_is_prefix(s: Seq<char>)
    ensures
        trim_back(s).len() <= s.len(),
        trim_back(s) == s.take(trim_back(s).len() as int),
    decreases s.len(),
{
    if s.len() > 0 && is_blank(s.last()) {
        lemma_trim_back_is_prefix(s.drop_last());
        assert(s.drop_last().take(trim_back(s).len() as int) =~= s.take(
            trim_back(s).len() as int,
        ));
    } else {
        assert(s.take(s.len() as int) =~= s);
    }
}

/// Law: trimming is idempotent. Trimming an already-trimmed line changes
/// nothing.
pub proof fn lemma_trim_idempotent(s: Seq<char>)
    ensures
        trim_spec(trim_spec(s)) == trim_spec(s),
{
    let u = trim_front(s);
    let t = trim_back(u);
    if t.len() > 0 {
        lemma_trim_back_ends_nonblank(u);
        lemma_trim_front_starts_nonblank(s);
        lemma_trim_back_is_prefix(u);
        assert(t[0] == u[0]);
        assert(trim_front(t) == t);
    } else {
        assert(t =~= Seq::<char>::empty());
    }
}

fn is_blank_char(c: char) -> (b: bool)
    ensures
        b == is_blank(c),
{
    c == ' ' || c == '\t' || c == '\n' || c == '\r' || c == '\u{b}' || c == '\u{c}'
}

/// Remove leading and trailing whitespace from a line of text.
pub fn trim(s: &str) -> (r: &str)
    ensures
        r@ == trim_spec(s@),
{
    let len = s.unicode_len();
    let mut start: usize = 0;
    proof {
        assert(s@.skip(0) =~= s@);
    }
    while start < len && is_blank_char(s.get_char(start))
        invariant
            0 <= start <= len,
            len == s@.len(),
            trim_front(s@) == trim_front(s@.skip(start as int)),
        decreases len - start,
    {
        proof {
            assert(s@.skip(start as int)[0] == s@[start as int]);
            assert(s@.skip(start as int).drop_first() =~= s@.skip(start as int + 1));
        }
        start = start + 1;
    }
    proof {
        if start < len {
            assert(s@.skip(start as int)[0] == s@[start as int]);
        } else {
            assert(s@.skip(start as int) =~= Seq::<char>::empty());
        }
        assert(trim_front(s@) == s@.skip(start as int));
    }
    let mut end: usize = len;
    proof {
        assert(s@.skip(start as int) =~= s@.subrange(start as int, end as int));
    }
    while start < end && is_blank_char(s.get_char(end - 1))
        invariant
            start <= end <= len,
            len == s@.len(),
            trim_back(s@.skip(start as int)) == trim_back(s@.subrange(start as int, end as int)),
        decreases end,
    {
        proof {
            assert(s@.subrange(start as int, end as int).last() == s@[end as int - 1]);
            assert(s@.subrange(start as int, end as int).drop_last() =~= s@.subrange(
                start as int,
                end as int - 1,
            ));
        }
        end = end - 1;
    }
    proof {
        if start < end {
            assert(s@.subrange(start as int, end as int).last() == s@[end as int - 1]);
        } else {
            assert(s@.subrange(start as int, end as int) =~= Seq::<char>::empty());
        }
        assert(trim_spec(s@) == s@.subrange(start as int, end as int));
    }
    s.substring_char(start, end)
}

} // verus!
