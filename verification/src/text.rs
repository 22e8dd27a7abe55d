//! Workspace names and other small pieces of text.
use vstd::prelude::*;
use vstd::string::{StrSliceExecFns, StringExecFns};

verus! {

/// The character of a decimal digit `d < 10`.
pub open spec fn digit_char(d: nat) -> char {
    (48 + d) as char
}

/// The decimal digits of `n`, most significant first, without leading zeros.
pub open spec fn decimal(n: nat) -> Seq<char>
    decreases n,
{
    if n < 10 {
        seq![digit_char(n)]
    } else {
        decimal(n / 10).push(digit_char(n % 10))
    }
}

/// The prefix of every per-window hidden workspace.
pub open spec fn hidden_prefix() -> Seq<char> {
    seq!['h', '-']
}

/// The hidden workspace that holds window `window_id` while none of its tags is shown.
pub open spec fn hidden_workspace_of(window_id: u32) -> Seq<char> {
    hidden_prefix() + decimal(window_id as nat)
}

/// `s` begins with `prefix`.
pub open spec fn starts_with(s: Seq<char>, prefix: Seq<char>) -> bool {
    prefix.len() <= s.len() && s.subrange(0, prefix.len() as int) == prefix
}

/// A workspace name that is one of the per-window hidden workspaces (`h-...`).
pub open spec fn is_hidden_name(s: Seq<char>) -> bool {
    starts_with(s, hidden_prefix())
}

/// Writes `n` in decimal through `u32`'s `Display` (its `to_string`), which std documents as the
/// plain decimal digits of the number with no sign, padding or leading zeros.
#[verifier::external_body]
pub(crate) fn u32_to_decimal(n: u32) -> (s: String)
    ensures
        s@ == decimal(n as nat),
{
    n.to_string()
}

/// The name of the hidden workspace that parks window `window_id`: `h-<window_id>`.
pub fn hidden_workspace_name(window_id: u32) -> (s: String)
    ensures
        s@ == hidden_workspace_of(window_id),
{
    let digits = u32_to_decimal(window_id);
    let mut s = String::from_str("h-");
    proof {
        reveal_strlit("h-");
    }
    s.append(digits.as_str());
    s
}

/// Whether a workspace name starts with the hidden prefix `h-`.
pub fn is_hidden_workspace(name: &str) -> (r: bool)
    ensures
        r == is_hidden_name(name@),
{
    let n = name.unicode_len();
    if n < 2 {
        return false;
    }
    let c0 = name.get_char(0);
    let c1 = name.get_char(1);
    let r = c0 == 'h' && c1 == '-';
    proof {
        if r {
            assert(name@.subrange(0, 2) =~= hidden_prefix());
        } else {
            if name@.subrange(0, 2) == hidden_prefix() {
                assert(name@.subrange(0, 2)[0] == name@[0]);
                assert(name@.subrange(0, 2)[1] == name@[1]);
            }
        }
    }
    r
}

/// Whether two pieces of text hold the same characters.
pub fn text_eq(a: &str, b: &str) -> (r: bool)
    ensures
        r == (a@ == b@),
{
    let n = a.unicode_len();
    let m = b.unicode_len();
    if n != m {
        return false;
    }
    let mut i: usize = 0;
    while i < n
        invariant
            n == a@.len(),
            m == b@.len(),
            n == m,
            i <= n,
            forall|j: int| 0 <= j < i ==> a@[j] == b@[j],
        decreases n - i,
    {
        if a.get_char(i) != b.get_char(i) {
            return false;
        }
        i = i + 1;
    }
    assert(a@ =~= b@);
    true
}

/// A number written in decimal begins with a digit, so it never names a hidden workspace.
pub proof fn lemma_decimal_not_hidden(n: nat)
    ensures
        decimal(n).len() >= 1,
        !is_hidden_name(decimal(n)),
    decreases n,
{
    if n < 10 {
        assert(decimal(n)[0] == digit_char(n));
        assert((48 + n) as char != 'h');
    } else {
        lemma_decimal_not_hidden(n / 10);
        assert(decimal(n)[0] == decimal(n / 10)[0]);
        if is_hidden_name(decimal(n)) {
            assert(decimal(n).subrange(0, 2)[0] == decimal(n)[0]);
            if decimal(n / 10).len() >= 2 {
                assert(decimal(n / 10).subrange(0, 2)[0] == decimal(n / 10)[0]);
                assert(decimal(n).subrange(0, 2)[1] == decimal(n)[1]);
                assert(decimal(n / 10).subrange(0, 2)[1] == decimal(n / 10)[1]);
                assert(decimal(n / 10).subrange(0, 2) =~= hidden_prefix());
            } else {
                assert(decimal(n / 10)[0] == digit_char(n / 10));
                assert(decimal(n)[0] == 'h');
                assert((48 + n / 10) as char != 'h');
            }
        }
    }
}

} // verus!
