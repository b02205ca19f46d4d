//! An example target type for the reader: an email-like structured value.
//!
//! The grammar is local-part `"@"` domain `"."` top-level-domain: the text
//! splits at its only `'@'` and at the last `'.'` after it, each of the three
//! segments is trimmed, and each must be non-empty.

use vstd::prelude::*;

use crate::text::trim;
use crate::text::trim_spec;

verus! {

/// An email-like structured value: the three trimmed segments of the text it
/// was parsed from.
#[derive(Debug, PartialEq, Eq)]
pub struct Email {
    pub local: String,
    pub domain: String,
    pub tld: String,
}

/// The parse failure of [`Email`]. It carries no detail: every malformed
/// input is rendered the same way.
#[derive(Debug, PartialEq, Eq, Structural)]
pub struct EmailParseError;

impl EmailParseError {
    /// Render the failure as text for an output sink.
    pub fn message(&self) -> (m: String)
        ensures
            m@ == "Couldn't Parse Email!"@,
    {
        String::from_str("Couldn't Parse Email!")
    }
}

/// Positions `i` and `j` split `s` into the three segments of an email:
/// `s[i]` is the only `'@'` of `s`, and `s[j]` is the last `'.'` after it.
pub open spec fn email_split_at(s: Seq<char>, i: int, j: int) -> bool {
    &&& 0 <= i < s.len()
    &&& s[i] == '@'
    &&& forall|p: int| 0 <= p < s.len() && p != i ==> s[p] != '@'
    &&& i < j < s.len()
    &&& s[j] == '.'
    &&& forall|p: int| j < p < s.len() ==> s[p] != '.'
}

/// The three fields an email parsed from `s` split at `i` and `j` carries:
/// each segment trimmed, and none of them empty.
pub open spec fn email_fields(
    s: Seq<char>,
    i: int,
    j: int,
    local: Seq<char>,
    domain: Seq<char>,
    tld: Seq<char>,
) -> bool {
    &&& local == trim_spec(s.subrange(0, i))
    &&& domain == trim_spec(s.subrange(i + 1, j))
    &&& tld == trim_spec(s.subrange(j + 1, s.len() as int))
    &&& local.len() > 0
    &&& domain.len() > 0
    &&& tld.len() > 0
}

/// `s` parses as an email with the given trimmed segments.
pub open spec fn is_email(
    s: Seq<char>,
    local: Seq<char>,
    domain: Seq<char>,
    tld: Seq<char>,
) -> bool {
    exists|i: int, j: int|
        #[trigger] email_split_at(s, i, j) && email_fields(s, i, j, local, domain, tld)
}

/// The split of an email text is unique: there is only one `'@'`, and only
/// one last `'.'` after it.
proof fn lemma_split_unique(s: Seq<char>, i1: int, j1: int, i2: int, j2: int)
    requires
        email_split_at(s, i1, j1),
        email_split_at(s, i2, j2),
    ensures
        i1 == i2,
        j1 == j2,
{
    assert(i1 == i2);
    if j1 < j2 {
        assert(s[j2] != '.');
    }
    if j2 < j1 {
        assert(s[j1] != '.');
    }
}

impl Email {
    /// Parse `s` as local-part `"@"` domain `"."` top-level-domain, trimming
    /// each segment: `Ok` exactly when `s` has one `'@'`, a `'.'` somewhere
    /// after it, and nothing but whitespace in none of the three segments the
    /// split yields.
    pub fn parse(s: &str) -> (r: Result<Email, EmailParseError>)
        ensures
            match r {
                Ok(e) => is_email(s@, e.local@, e.domain@, e.tld@),
                Err(_) => forall|l: Seq<char>, d: Seq<char>, t: Seq<char>|
                    !is_email(s@, l, d, t),
            },
    {
        let len = s.unicode_len();
        let mut i: usize = 0;
        while i < len && s.get_char(i) != '@'
            invariant
                0 <= i <= len,
                len == s@.len(),
                forall|p: int| 0 <= p < i ==> s@[p] != '@',
            decreases len - i,
        {
            i = i + 1;
        }
        if i == len {
            proof {
                assert forall|l: Seq<char>, d: Seq<char>, t: Seq<char>|
                    !is_email(s@, l, d, t) by {
                    if is_email(s@, l, d, t) {
                        let (wi, wj) = choose|wi: int, wj: int|
                            #[trigger] email_split_at(s@, wi, wj) && email_fields(
                                s@,
                                wi,
                                wj,
                                l,
                                d,
                                t,
                            );
                        assert(s@[wi] != '@');
                        assert(false);
                    }
                }
            }
            return Err(EmailParseError);
        }
        let mut p: usize = i + 1;
        while p < len
            invariant
                0 <= i < len,
                i < p <= len,
                len == s@.len(),
                s@[i as int] == '@',
                forall|q: int| 0 <= q < i ==> s@[q] != '@',
                forall|q: int| i < q < p ==> s@[q] != '@',
            decreases len - p,
        {
            if s.get_char(p) == '@' {
                proof {
                    assert forall|l: Seq<char>, d: Seq<char>, t: Seq<char>|
                        !is_email(s@, l, d, t) by {
                        if is_email(s@, l, d, t) {
                            let (wi, wj) = choose|wi: int, wj: int|
                                #[trigger] email_split_at(s@, wi, wj) && email_fields(
                                    s@,
                                    wi,
                                    wj,
                                    l,
                                    d,
                                    t,
                                );
                            if wi != i {
                                assert(s@[i as int] != '@');
                            } else {
                                assert(s@[p as int] != '@');
                            }
                            assert(false);
                        }
                    }
                }
                return Err(EmailParseError);
            }
            p = p + 1;
        }
        let mut q: usize = len;
        while q > i + 1 && s.get_char(q - 1) != '.'
            invariant
                0 <= i < len,
                i + 1 <= q <= len,
                len == s@.len(),
                forall|p2: int| q <= p2 < len ==> s@[p2] != '.',
            decreases q,
        {
            q = q - 1;
        }
        if q == i + 1 {
            proof {
                assert forall|l: Seq<char>, d: Seq<char>, t: Seq<char>|
                    !is_email(s@, l, d, t) by {
                    if is_email(s@, l, d, t) {
                        let (wi, wj) = choose|wi: int, wj: int|
                            #[trigger] email_split_at(s@, wi, wj) && email_fields(
                                s@,
                                wi,
                                wj,
                                l,
                                d,
                                t,
                            );
                        if wi != i {
                            assert(s@[i as int] != '@');
                        }
                        assert(wi == i);
                        assert(s@[wj] != '.');
                        assert(false);
                    }
                }
            }
            return Err(EmailParseError);
        }
        let j = q - 1;
        proof {
            assert(email_split_at(s@, i as int, j as int));
        }
        let local = trim(s.substring_char(0, i));
        let domain = trim(s.substring_char(i + 1, j));
        let tld = trim(s.substring_char(j + 1, len));
        if local.is_empty() || domain.is_empty() || tld.is_empty() {
            proof {
                assert forall|l: Seq<char>, d: Seq<char>, t: Seq<char>|
                    !is_email(s@, l, d, t) by {
                    if is_email(s@, l, d, t) {
                        let (wi, wj) = choose|wi: int, wj: int|
                            #[trigger] email_split_at(s@, wi, wj) && email_fields(
                                s@,
                                wi,
                                wj,
                                l,
                                d,
                                t,
                            );
                        lemma_split_unique(s@, wi, wj, i as int, j as int);
                        assert(false);
                    }
                }
            }
            return Err(EmailParseError);
        }
        let e = Email {
            local: String::from_str(local),
            domain: String::from_str(domain),
            tld: String::from_str(tld),
        };
        proof {
            assert(email_fields(s@, i as int, j as int, e.local@, e.domain@, e.tld@));
        }
        Ok(e)
    }
}

} // verus!
