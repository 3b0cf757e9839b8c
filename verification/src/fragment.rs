//! Cutting a text at its first `:`.
//!
//! A text is a run of fragments separated by `:`. The first fragment is what
//! stands before the first `:`, or the whole text where it has none; it may
//! be empty.

use vstd::prelude::*;
use vstd::string::StrSliceExecFns;

verus! {

/// No character of `s` is a `:`.
pub open spec fn no_colon(s: Seq<char>) -> bool {
    forall|i: int| 0 <= i < s.len() ==> #[trigger] s[i] != ':'
}

/// The number of characters of `s` before its first `:`; the length of `s`
/// where it has none.
pub open spec fn fragment_len(s: Seq<char>) -> nat
    decreases s.len(),
{
    if s.len() == 0 || s[0] == ':' {
        0
    } else {
        1 + fragment_len(s.drop_first())
    }
}

/// What stands before the first `:` of `s`; all of `s` where it has none.
pub open spec fn first_fragment(s: Seq<char>) -> Seq<char> {
    s.take(fragment_len(s) as int)
}

/// What follows the first `:` of `s`; `None` where `s` has no `:`.
pub open spec fn after_colon(s: Seq<char>) -> Option<Seq<char>> {
    if fragment_len(s) < s.len() {
        Some(s.skip(fragment_len(s) as int + 1))
    } else {
        None
    }
}

/// The fragment between the first and the second `:` of `s` (up to the end
/// of `s` where there is no second one); `None` where `s` has no `:`.
pub open spec fn second_fragment(s: Seq<char>) -> Option<Seq<char>> {
    match after_colon(s) {
        Some(rest) => Some(first_fragment(rest)),
        None => None,
    }
}

/// `fragment_len(s)` is the one position `n` such that no `:` stands before
/// `n`, and either `s` ends at `n` or a `:` stands at `n`.
pub proof fn lemma_fragment_len_unique(s: Seq<char>, n: int)
    requires
        0 <= n <= s.len(),
        no_colon(s.take(n)),
        n < s.len() ==> s[n] == ':',
    ensures
        fragment_len(s) == n,
    decreases s.len(),
{
    if s.len() == 0 {
    } else if s[0] == ':' {
        if n > 0 {
            assert(s.take(n)[0] == s[0]);
        }
    } else {
        let tail = s.drop_first();
        assert(tail.take(n - 1) =~= s.take(n).drop_first());
        assert forall|i: int| 0 <= i < tail.take(n - 1).len() implies #[trigger] tail.take(n - 1)[i]
            != ':' by {
            assert(tail.take(n - 1)[i] == s.take(n)[i + 1]);
        }
        lemma_fragment_len_unique(tail, n - 1);
    }
}

/// The first fragment is within the text and holds no `:`, and where the text
/// goes on after it, it goes on with a `:`.
pub proof fn lemma_first_fragment_ends_at_colon(s: Seq<char>)
    ensures
        fragment_len(s) <= s.len(),
        no_colon(first_fragment(s)),
        fragment_len(s) < s.len() ==> s[fragment_len(s) as int] == ':',
    decreases s.len(),
{
    if s.len() == 0 || s[0] == ':' {
    } else {
        let tail = s.drop_first();
        lemma_first_fragment_ends_at_colon(tail);
        assert forall|i: int| 0 <= i < first_fragment(s).len() implies #[trigger] first_fragment(
            s,
        )[i] != ':' by {
            if i > 0 {
                assert(first_fragment(s)[i] == first_fragment(tail)[i - 1]);
            }
        }
    }
}

/// Every text is its first fragment alone, or its first fragment, a `:` and
/// what follows that `:`.
pub proof fn lemma_fragments_rejoin(s: Seq<char>)
    ensures
        no_colon(first_fragment(s)),
        match after_colon(s) {
            Some(rest) => s == first_fragment(s) + seq![':'] + rest,
            None => s == first_fragment(s),
        },
{
    lemma_first_fragment_ends_at_colon(s);
    match after_colon(s) {
        Some(rest) => {
            assert(s =~= first_fragment(s) + seq![':'] + rest);
        },
        None => {
            assert(s =~= first_fragment(s));
        },
    }
}

/// A text without `:` is its own first fragment, and nothing follows.
pub proof fn lemma_fragments_of_plain(a: Seq<char>)
    requires
        no_colon(a),
    ensures
        first_fragment(a) == a,
        after_colon(a) is None,
        second_fragment(a) is None,
{
    assert(a.take(a.len() as int) =~= a);
    lemma_fragment_len_unique(a, a.len() as int);
}

/// Where `a` holds no `:`, the text `a:rest` has the first fragment `a`, and
/// `rest` follows its first `:`.
pub proof fn lemma_fragments_of_joined(a: Seq<char>, rest: Seq<char>)
    requires
        no_colon(a),
    ensures
        first_fragment(a + seq![':'] + rest) == a,
        after_colon(a + seq![':'] + rest) == Some(rest),
        second_fragment(a + seq![':'] + rest) == Some(first_fragment(rest)),
{
    let s = a + seq![':'] + rest;
    assert(s.take(a.len() as int) =~= a);
    assert(s[a.len() as int] == ':');
    lemma_fragment_len_unique(s, a.len() as int);
    assert(s.skip(a.len() as int + 1) =~= rest);
}

/// Cuts `text` at its first `:`.
///
/// Returns the first fragment and, where `text` has a `:`, what follows the
/// first one.
pub fn split_at_colon<'a>(text: &'a str) -> (r: (&'a str, Option<&'a str>))
    ensures
        r.0@ == first_fragment(text@),
        match r.1 {
            Some(rest) => after_colon(text@) == Some(rest@),
            None => after_colon(text@) is None,
        },
{
    let len: usize = text.unicode_len();
    let mut cut: usize = 0;
    for c in iter: text.chars()
        invariant
            iter.seq() == text@,
            len == text@.len(),
            cut == iter.index(),
            no_colon(text@.take(iter.index())),
    {
        if c == ':' {
            proof {
                lemma_fragment_len_unique(text@, cut as int);
            }
            let rest = text.substring_char(cut + 1, len);
            return (text.substring_char(0, cut), Some(rest));
        }
        assert(text@.take(iter.index() + 1) =~= text@.take(iter.index()).push(c));
        cut = cut + 1;
    }
    proof {
        lemma_fragment_len_unique(text@, len as int);
        assert(text@.take(len as int) =~= text@);
    }
    (text, None)
}

} // verus!
