use vstd::prelude::*;

verus! {

use vstd::arithmetic::power2::{lemma2_to64, lemma_pow2_strictly_increases, pow2};
use crate::arith::{
    compute_slack,
    lemma_base_block_in_range,
    lemma_slack_bits_form,
    pow2_exec,
    slack_bits,
};
use crate::context::{alphabet_wf, DecodeContext};

/// The input is not valid under the selected encoding contract.
#[derive(Clone, Copy, Debug, PartialEq, Eq, Structural)]
pub struct DecodeError;

impl DecodeError {
    /// A human-readable description of the failure.
    pub fn message(&self) -> (r: &'static str)
        ensures
            r@ == "couldn't decode input"@,
    {
        "couldn't decode input"
    }
}

/// Length of the body of an encoded string: the prefix up to the first
/// alignment character `=`, or the whole string when none occurs.
pub open spec fn body_len_of(s: Seq<char>) -> int
    decreases s.len(),
{
    if s.len() == 0 {
        0
    } else if s[0] == '=' {
        0
    } else {
        1 + body_len_of(s.skip(1))
    }
}

/// `body_len_of` is characterized by: no `=` before it, and an `=` (or the
/// string's end) at it.
pub proof fn lemma_body_len_unique(s: Seq<char>, m: int)
    requires
        0 <= m <= s.len(),
        forall|k: int| 0 <= k < m ==> s[k] != '=',
        m < s.len() ==> s[m] == '=',
    ensures
        body_len_of(s) == m,
    decreases s.len(),
{
    if s.len() == 0 {
    } else if s[0] == '=' {
        assert(m == 0);
    } else {
        assert(m > 0);
        assert(forall|k: int| 0 <= k < m - 1 ==> s.skip(1)[k] == s[k + 1]);
        lemma_body_len_unique(s.skip(1), m - 1);
    }
}

pub proof fn lemma_body_len_props(s: Seq<char>)
    ensures
        0 <= body_len_of(s) <= s.len(),
        forall|k: int| 0 <= k < body_len_of(s) ==> s[k] != '=',
        body_len_of(s) < s.len() ==> s[body_len_of(s)] == '=',
    decreases s.len(),
{
    if s.len() == 0 {
    } else if s[0] == '=' {
    } else {
        lemma_body_len_props(s.skip(1));
        assert forall|k: int| 0 <= k < body_len_of(s) implies s[k] != '=' by {
            if k > 0 {
                assert(s.skip(1)[k - 1] == s[k]);
            }
        }
        if body_len_of(s) < s.len() {
            assert(s.skip(1)[body_len_of(s) - 1] == s[body_len_of(s)]);
        }
    }
}

/// Whether character `c` stands for some symbol of alphabet `a`.
pub open spec fn has_symbol(a: Seq<u8>, c: char) -> bool {
    exists|j: int| 0 <= j < a.len() && a[j] as char == c
}

/// The position of the symbol that character `c` stands for in alphabet `a`
/// (unique when the alphabet is well-formed).
pub open spec fn symbol_index_of(a: Seq<u8>, c: char) -> int {
    choose|j: int| 0 <= j < a.len() && a[j] as char == c
}

/// In a well-formed alphabet, the index of an entry's character is that
/// entry's position.
pub proof fn lemma_symbol_index_of_entry(a: Seq<u8>, w: nat, m: int)
    requires
        alphabet_wf(a, w),
        0 <= m < a.len(),
    ensures
        has_symbol(a, a[m] as char),
        symbol_index_of(a, a[m] as char) == m,
{
    assert(has_symbol(a, a[m] as char));
    let j = symbol_index_of(a, a[m] as char);
    assert(0 <= j < a.len() && a[j] as char == a[m] as char);
    if j < m {
        assert(a[j] != a[m]);
        assert(false);
    } else if m < j {
        assert(a[m] != a[j]);
        assert(false);
    }
}

/// The full enumeration that `permute` returns on a decodable input: every
/// encoded string obtained from `s` by substituting, for the final body
/// symbol, each symbol whose index shares its high bits, in ascending order
/// of index; the alignment suffix is kept unchanged.
pub open spec fn permute_results(s: Seq<char>, a: Seq<u8>, w: nat, n: nat) -> Seq<Seq<char>>
    recommends
        alphabet_wf(a, w),
        1 <= body_len_of(s),
        has_symbol(a, s[body_len_of(s) - 1]),
{
    let bl = body_len_of(s);
    let idx = symbol_index_of(a, s[bl - 1]);
    let count = pow2(slack_bits(n as int, w as int) as nat) as int;
    let base = (idx / count) * count;
    Seq::new(
        count as nat,
        |i: int| s.subrange(0, bl - 1).push(a[base + i] as char) + s.subrange(bl, s.len() as int),
    )
}

/// Relies on `String::push`: appends one character at the end of the string.
#[verifier::external_body]
fn push_char(s: &mut String, c: char)
    ensures
        final(s)@ == old(s)@.push(c),
{
    s.push(c);
}

/// Index of the first alignment character `=` of `input`, or its length when
/// none occurs.
fn find_body_len(input: &str) -> (r: usize)
    ensures
        r as int == body_len_of(input@),
{
    let n = input.unicode_len();
    let mut i: usize = 0;
    while i < n
        invariant
            i <= n,
            n == input@.len(),
            forall|k: int| 0 <= k < i ==> input@[k] != '=',
        decreases n - i,
    {
        let c = input.get_char(i);
        if c == '=' {
            proof {
                lemma_body_len_unique(input@, i as int);
            }
            return i;
        }
        i = i + 1;
    }
    proof {
        lemma_body_len_unique(input@, n as int);
    }
    n
}

/// First position of alphabet `a` whose symbol is character `c`, if any.
fn find_symbol_index(a: &Vec<u8>, c: char) -> (r: Option<usize>)
    ensures
        match r {
            Some(j) => j < a@.len() && a@[j as int] as char == c && (forall|m: int|
                0 <= m < j ==> a@[m] as char != c),
            None => !has_symbol(a@, c),
        },
{
    let mut i: usize = 0;
    while i < a.len()
        invariant
            i <= a@.len(),
            forall|k: int| 0 <= k < i ==> a@[k] as char != c,
        decreases a@.len() - i,
    {
        if a[i] as char == c {
            return Some(i);
        }
        i = i + 1;
    }
    None
}

/// Decodes `input` under `ctx` and enumerates every encoded string that
/// decodes to the same byte sequence, varying only the slack bits of the
/// final body symbol.
///
/// Fails exactly when the input cannot be decoded, and on inputs that decode
/// even though their body is empty or ends in a character outside the
/// contract's alphabet; such inputs break the invariant that a decodable
/// string's final body symbol is a known alphabet entry, so no permutation
/// can be stated for them. An empty input yields an empty enumeration.
pub fn permute<C: DecodeContext>(input: &str, ctx: &C) -> (r: Result<Vec<String>, DecodeError>)
    ensures
        ({
            let s = input@;
            let a = ctx.spec_alphabet();
            let w = ctx.spec_bitness();
            match ctx.spec_decode(s) {
                Option::None => r is Err,
                Option::Some(d) => {
                    if s.len() == 0 {
                        r matches Ok(v) && v@.len() == 0
                    } else if body_len_of(s) == 0 || !has_symbol(a, s[body_len_of(s) - 1]) {
                        r is Err
                    } else {
                        r matches Ok(v) && v@.len() == permute_results(s, a, w, d.len()).len()
                            && (forall|k: int|
                            0 <= k < v@.len() ==> #[trigger] v@[k]@ == permute_results(
                                s,
                                a,
                                w,
                                d.len(),
                            )[k])
                    }
                },
            }
        }),
{
    proof {
        ctx.lemma_wf();
    }
    let decoded = match ctx.decode(input) {
        Some(d) => d,
        None => {
            return Err(DecodeError);
        },
    };
    let n = decoded.len();
    let len = input.unicode_len();
    let body_len = find_body_len(input);
    proof {
        lemma_body_len_props(input@);
    }
    if body_len == 0 {
        if len == 0 {
            return Ok(Vec::new());
        }
        return Err(DecodeError);
    }
    let alpha = ctx.alphabet();
    let w = ctx.bitness();
    let last = input.get_char(body_len - 1);
    let idx = match find_symbol_index(&alpha, last) {
        Some(j) => j,
        None => {
            return Err(DecodeError);
        },
    };
    proof {
        lemma_symbol_index_of_entry(alpha@, w as nat, idx as int);
        assert(symbol_index_of(alpha@, last) == idx as int);
    }
    let padding = compute_slack(n, w);
    let count = pow2_exec(padding);
    proof {
        lemma_slack_bits_form(n as int, w as int);
        lemma_base_block_in_range(idx as int, padding as nat, w as nat);
        lemma2_to64();
        if (w as nat) < 6 {
            lemma_pow2_strictly_increases(w as nat, 6);
        }
        assert(alpha@.len() <= 64);
    }
    let base = idx / count * count;
    let prefix = input.substring_char(0, body_len - 1);
    let alignment = input.substring_char(body_len, len);
    let ghost rs = permute_results(input@, ctx.spec_alphabet(), ctx.spec_bitness(), n as nat);
    proof {
        assert(rs.len() == count);
    }
    let mut results: Vec<String> = Vec::new();
    let mut i: usize = 0;
    while i < count
        invariant
            i <= count,
            base + count <= alpha@.len(),
            alpha@.len() <= 64,
            alpha@ == ctx.spec_alphabet(),
            rs == permute_results(input@, ctx.spec_alphabet(), ctx.spec_bitness(), n as nat),
            rs.len() == count,
            1 <= body_len as int <= input@.len(),
            body_len as int == body_len_of(input@),
            prefix@ == input@.subrange(0, body_len as int - 1),
            alignment@ == input@.subrange(body_len as int, input@.len() as int),
            forall|k: int|
                0 <= k < rs.len() ==> rs[k] == prefix@.push(alpha@[base + k] as char) + alignment@,
            results@.len() == i,
            forall|k: int| 0 <= k < i ==> #[trigger] results@[k]@ == rs[k],
        decreases count - i,
    {
        proof {
            assert(base + i < alpha@.len());
        }
        if base + i >= alpha.len() {
            // Defensive bound on the candidate index; unreachable for a
            // well-formed alphabet, as proved just above.
            return Err(DecodeError);
        }
        let b = alpha[base + i];
        let mut out = String::from_str(prefix);
        push_char(&mut out, b as char);
        out.append(alignment);
        proof {
            assert(out@ == rs[i as int]);
        }
        results.push(out);
        i = i + 1;
    }
    Ok(results)
}

} // verus!
