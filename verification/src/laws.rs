use vstd::prelude::*;

verus! {

use vstd::arithmetic::power2::{lemma2_to64, pow2};
use crate::arith::{lemma_base_block_in_range, lemma_slack_bits_form, slack_bits};
use crate::context::alphabet_wf;
use crate::engine::{
    body_len_of,
    has_symbol,
    lemma_body_len_props,
    lemma_body_len_unique,
    lemma_symbol_index_of_entry,
    permute_results,
    symbol_index_of,
};

/// Law: the enumeration has exactly `2^slack_bits(n, w)` entries, one per
/// assignment of the unconstrained bits of the final body symbol.
pub proof fn lemma_result_count(s: Seq<char>, a: Seq<u8>, w: nat, n: nat)
    requires
        1 <= w,
    ensures
        permute_results(s, a, w, n).len() == pow2(slack_bits(n as int, w as int) as nat),
{
    lemma_slack_bits_form(n as int, w as int);
}

/// Law: every enumerated string splits into body and alignment at the same
/// point as the input and carries the input's alignment suffix unchanged.
pub proof fn lemma_alignment_preserved(s: Seq<char>, a: Seq<u8>, w: nat, n: nat)
    requires
        alphabet_wf(a, w),
        1 <= body_len_of(s),
        has_symbol(a, s[body_len_of(s) - 1]),
    ensures
        ({
            let rs = permute_results(s, a, w, n);
            let bl = body_len_of(s);
            forall|k: int|
                0 <= k < rs.len() ==> {
                    &&& (#[trigger] rs[k]).len() == s.len()
                    &&& body_len_of(rs[k]) == bl
                    &&& rs[k].skip(bl) =~= s.skip(bl)
                }
        }),
{
    let rs = permute_results(s, a, w, n);
    let bl = body_len_of(s);
    let idx = symbol_index_of(a, s[bl - 1]);
    let p = slack_bits(n as int, w as int);
    let count = pow2(p as nat) as int;
    let base = (idx / count) * count;
    lemma_slack_bits_form(n as int, w as int);
    lemma_body_len_props(s);
    assert(0 <= idx < a.len() && a[idx] as char == s[bl - 1]);
    lemma_base_block_in_range(idx, p as nat, w);
    assert forall|k: int| 0 <= k < rs.len() implies {
        &&& (#[trigger] rs[k]).len() == s.len()
        &&& body_len_of(rs[k]) == bl
        &&& rs[k].skip(bl) =~= s.skip(bl)
    } by {
        let t = rs[k];
        assert(t == s.subrange(0, bl - 1).push(a[base + k] as char) + s.subrange(
            bl,
            s.len() as int,
        ));
        assert(t.len() == s.len());
        assert forall|j: int| 0 <= j < bl implies t[j] != '=' by {
            if j < bl - 1 {
                assert(t[j] == s[j]);
            } else {
                assert(t[bl - 1] == a[base + k] as char);
                if t[bl - 1] == '=' {
                    assert((a[base + k] as char) as u8 == a[base + k]);
                    assert(false);
                }
            }
        }
        if bl < t.len() {
            assert(t[bl] == s[bl]);
        }
        lemma_body_len_unique(t, bl);
        assert forall|j: int| 0 <= j < t.len() - bl implies t.skip(bl)[j] == s.skip(bl)[j] by {
            assert(t[bl + j] == s[bl + j]);
        }
    }
}

/// Law: the enumeration is ordered by strictly ascending index, in the
/// contract's alphabet, of the substituted final body symbol.
pub proof fn lemma_results_ascending(s: Seq<char>, a: Seq<u8>, w: nat, n: nat)
    requires
        alphabet_wf(a, w),
        1 <= body_len_of(s),
        has_symbol(a, s[body_len_of(s) - 1]),
    ensures
        ({
            let rs = permute_results(s, a, w, n);
            let bl = body_len_of(s);
            forall|j: int, k: int|
                0 <= j < k < rs.len() ==> symbol_index_of(a, #[trigger] rs[j][bl - 1])
                    < symbol_index_of(a, #[trigger] rs[k][bl - 1])
        }),
{
    let rs = permute_results(s, a, w, n);
    let bl = body_len_of(s);
    let idx = symbol_index_of(a, s[bl - 1]);
    let p = slack_bits(n as int, w as int);
    let count = pow2(p as nat) as int;
    let base = (idx / count) * count;
    lemma_slack_bits_form(n as int, w as int);
    lemma_body_len_props(s);
    assert(0 <= idx < a.len() && a[idx] as char == s[bl - 1]);
    lemma_base_block_in_range(idx, p as nat, w);
    assert forall|j: int, k: int| 0 <= j < k < rs.len() implies symbol_index_of(
        a,
        #[trigger] rs[j][bl - 1],
    ) < symbol_index_of(a, #[trigger] rs[k][bl - 1]) by {
        let cj = a[base + j] as char;
        let ck = a[base + k] as char;
        let body = s.subrange(0, bl - 1);
        let tail = s.subrange(bl, s.len() as int);
        assert(rs[j] == body.push(cj) + tail);
        assert(rs[k] == body.push(ck) + tail);
        assert(body.push(cj)[bl - 1] == cj);
        assert((body.push(cj) + tail)[bl - 1] == body.push(cj)[bl - 1]);
        assert(body.push(ck)[bl - 1] == ck);
        assert((body.push(ck) + tail)[bl - 1] == body.push(ck)[bl - 1]);
        lemma_symbol_index_of_entry(a, w, base + j);
        lemma_symbol_index_of_entry(a, w, base + k);
    }
}

/// Law: every enumerated string's substituted final symbol agrees with the
/// input's final symbol on all bits above the slack bits; only the slack
/// bits, which no payload bit constrains, differ.
pub proof fn lemma_constrained_bits_unchanged(s: Seq<char>, a: Seq<u8>, w: nat, n: nat)
    requires
        alphabet_wf(a, w),
        1 <= body_len_of(s),
        has_symbol(a, s[body_len_of(s) - 1]),
    ensures
        ({
            let rs = permute_results(s, a, w, n);
            let bl = body_len_of(s);
            let block = pow2(slack_bits(n as int, w as int) as nat) as int;
            forall|k: int|
                0 <= k < rs.len() ==> symbol_index_of(a, #[trigger] rs[k][bl - 1]) / block
                    == symbol_index_of(a, s[bl - 1]) / block
        }),
{
    let rs = permute_results(s, a, w, n);
    let bl = body_len_of(s);
    let idx = symbol_index_of(a, s[bl - 1]);
    let p = slack_bits(n as int, w as int);
    let block = pow2(p as nat) as int;
    let base = (idx / block) * block;
    lemma_slack_bits_form(n as int, w as int);
    lemma_body_len_props(s);
    assert(0 <= idx < a.len() && a[idx] as char == s[bl - 1]);
    lemma_base_block_in_range(idx, p as nat, w);
    assert forall|k: int| 0 <= k < rs.len() implies symbol_index_of(
        a,
        #[trigger] rs[k][bl - 1],
    ) / block == symbol_index_of(a, s[bl - 1]) / block by {
        let ck = a[base + k] as char;
        let body = s.subrange(0, bl - 1);
        let tail = s.subrange(bl, s.len() as int);
        assert(rs[k] == body.push(ck) + tail);
        assert(body.push(ck)[bl - 1] == ck);
        assert((body.push(ck) + tail)[bl - 1] == body.push(ck)[bl - 1]);
        lemma_symbol_index_of_entry(a, w, base + k);
        vstd::arithmetic::div_mod::lemma_fundamental_div_mod_converse_div(
            base + k,
            block,
            idx / block,
            k,
        );
    }
}

/// Law: an input whose payload needs no slack bits yields exactly one
/// result, the input itself.
pub proof fn lemma_zero_slack_identity(s: Seq<char>, a: Seq<u8>, w: nat, n: nat)
    requires
        alphabet_wf(a, w),
        1 <= body_len_of(s),
        has_symbol(a, s[body_len_of(s) - 1]),
        slack_bits(n as int, w as int) == 0,
    ensures
        permute_results(s, a, w, n).len() == 1,
        permute_results(s, a, w, n)[0] == s,
{
    let rs = permute_results(s, a, w, n);
    let bl = body_len_of(s);
    let idx = symbol_index_of(a, s[bl - 1]);
    lemma2_to64();
    assert(rs.len() == 1);
    assert(0 <= idx < a.len() && a[idx] as char == s[bl - 1]);
    let count = pow2(slack_bits(n as int, w as int) as nat) as int;
    assert(count == 1);
    vstd::arithmetic::div_mod::lemma_div_basics(idx);
    assert(idx / count == idx);
    assert((idx / count) * count == idx) by (nonlinear_arith)
        requires
            count == 1,
            idx / count == idx,
    ;
    let t = rs[0];
    assert(t == s.subrange(0, bl - 1).push(a[idx] as char) + s.subrange(bl, s.len() as int));
    lemma_body_len_props(s);
    assert forall|j: int| 0 <= j < s.len() implies t[j] == s[j] by {
        if j < bl - 1 {
            assert(t[j] == s.subrange(0, bl - 1)[j]);
        } else if j == bl - 1 {
            assert(t[j] == a[idx] as char);
        } else {
            assert(t[j] == s.subrange(bl, s.len() as int)[j - bl]);
        }
    }
    assert(t =~= s);
}

} // verus!
