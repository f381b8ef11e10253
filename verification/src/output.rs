//! The output writer's naming scheme: each mutant of a source file is
//! written under a name built deterministically from the original file
//! name and a 1-based sequence index, so no two mutants of one source
//! file collide.
use vstd::prelude::*;

verus! {

/// The decimal digits of `n`, most significant first.
pub open spec fn dec_digits(n: nat) -> Seq<u8>
    decreases n,
{
    if n < 10 {
        seq![(48 + n) as u8]
    } else {
        dec_digits(n / 10).push((48 + n % 10) as u8)
    }
}

/// A decimal rendering is never empty.
pub proof fn lemma_dec_digits_len(n: nat)
    ensures
        dec_digits(n).len() >= 1,
    decreases n,
{
    if n >= 10 {
        lemma_dec_digits_len(n / 10);
    }
}

/// Distinct numbers render as distinct digit strings: the decimal
/// rendering is injective.
pub proof fn lemma_dec_digits_injective(a: nat, b: nat)
    requires
        dec_digits(a) == dec_digits(b),
    ensures
        a == b,
    decreases a + b,
{
    if a < 10 && b < 10 {
        assert(dec_digits(a)[0] == (48 + a) as u8);
        assert(dec_digits(b)[0] == (48 + b) as u8);
    } else if a < 10 && b >= 10 {
        lemma_dec_digits_len(b / 10);
        assert(dec_digits(b).len() >= 2);
    } else if a >= 10 && b < 10 {
        lemma_dec_digits_len(a / 10);
        assert(dec_digits(a).len() >= 2);
    } else {
        assert(dec_digits(a).last() == (48 + a % 10) as u8);
        assert(dec_digits(b).last() == (48 + b % 10) as u8);
        assert(a % 10 == b % 10);
        assert(dec_digits(a).drop_last() == dec_digits(a / 10));
        assert(dec_digits(b).drop_last() == dec_digits(b / 10));
        assert(dec_digits(a / 10) == dec_digits(b / 10));
        lemma_dec_digits_injective(a / 10, b / 10);
        vstd::arithmetic::div_mod::lemma_fundamental_div_mod(a as int, 10);
        vstd::arithmetic::div_mod::lemma_fundamental_div_mod(b as int, 10);
    }
}

/// Append the decimal digits of `n` to a byte buffer.
fn push_decimal(out: &mut Vec<u8>, n: usize)
    ensures
        final(out)@ == old(out)@ + dec_digits(n as nat),
    decreases n,
{
    if n >= 10 {
        push_decimal(out, n / 10);
        out.push(48 + (n % 10) as u8);
        proof {
            assert(old(out)@ + dec_digits(n as nat) =~= (old(out)@ + dec_digits(
                n as nat / 10,
            )).push((48 + n as nat % 10) as u8));
        }
    } else {
        out.push(48 + n as u8);
        proof {
            assert(old(out)@ + dec_digits(n as nat) =~= old(out)@.push((48 + n as nat) as u8));
        }
    }
}

/// The name of one mutant: `mut_`, the original file name, `_`, the
/// 1-based index in decimal, and the target language's extension `.rs`.
pub open spec fn mutant_name_seq(name: Seq<u8>, index: nat) -> Seq<u8> {
    seq![109u8, 117u8, 116u8, 95u8] + name + seq![95u8] + dec_digits(index) + seq![
        46u8,
        114u8,
        115u8,
    ]
}

/// Build the file name for the mutant of `name` with the given 1-based
/// sequence index.
pub fn mutant_file_name(name: &Vec<u8>, index: usize) -> (r: Vec<u8>)
    ensures
        r@ == mutant_name_seq(name@, index as nat),
{
    let mut out: Vec<u8> = Vec::new();
    out.push(109);
    out.push(117);
    out.push(116);
    out.push(95);
    let mut i: usize = 0;
    while i < name.len()
        invariant
            i <= name@.len(),
            out@ == seq![109u8, 117u8, 116u8, 95u8] + name@.subrange(0, i as int),
        decreases name@.len() - i,
    {
        out.push(name[i]);
        i += 1;
    }
    proof {
        assert(name@.subrange(0, name@.len() as int) == name@);
    }
    out.push(95);
    push_decimal(&mut out, index);
    out.push(46);
    out.push(114);
    out.push(115);
    proof {
        assert(out@ =~= mutant_name_seq(name@, index as nat));
    }
    out
}

/// Two mutants of the same source file never collide in name: the naming
/// scheme is injective in the sequence index.
pub proof fn lemma_mutant_name_injective(name: Seq<u8>, a: nat, b: nat)
    requires
        mutant_name_seq(name, a) == mutant_name_seq(name, b),
    ensures
        a == b,
{
    let na = mutant_name_seq(name, a);
    let nb = mutant_name_seq(name, b);
    let off = 5 + name.len() as int;
    let la = dec_digits(a).len() as int;
    let lb = dec_digits(b).len() as int;
    assert(na.len() == off + la + 3);
    assert(nb.len() == off + lb + 3);
    assert(la == lb);
    assert forall|i: int| 0 <= i < la implies dec_digits(a)[i] == dec_digits(b)[i] by {
        assert(na[off + i] == dec_digits(a)[i]);
        assert(nb[off + i] == dec_digits(b)[i]);
    }
    assert(dec_digits(a) =~= dec_digits(b));
    lemma_dec_digits_injective(a, b);
}

} // verus!
