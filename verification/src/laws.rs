//! General properties of the engine, stated and proved over the
//! mathematical values that the public contracts use.

use vstd::prelude::*;
use crate::rational::{SRat, srat_wf, srat_eq, srat_add, srat_sub, srat_mul, srat_div};
use crate::engine::{
    SUnit, SPrefix, spec_lookup, spec_first_prefix, spec_resolve, spec_convert_val,
};

verus! {

proof fn lemma_add_wf(a: SRat, b: SRat)
    by (nonlinear_arith)
    requires
        srat_wf(a),
        srat_wf(b),
    ensures
        srat_wf(srat_add(a, b)),
        srat_wf(srat_sub(a, b)),
        srat_wf(srat_mul(a, b)),
{
}

proof fn lemma_div_wf(a: SRat, b: SRat)
    by (nonlinear_arith)
    requires
        srat_wf(a),
        srat_wf(b),
        b.num != 0,
    ensures
        srat_wf(srat_div(a, b)),
{
}

/// Cross-multiplication equality is transitive across a well-formed middle
/// value.
proof fn lemma_eq_trans(a: SRat, b: SRat, c: SRat)
    by (nonlinear_arith)
    requires
        b.den != 0,
        srat_eq(a, b),
        srat_eq(b, c),
    ensures
        srat_eq(a, c),
{
}

/// Adding then subtracting the same value cancels.
proof fn lemma_sub_add_cancel(x: SRat, o: SRat)
    by (nonlinear_arith)
    ensures
        srat_eq(srat_add(srat_sub(x, o), o), x),
        srat_eq(srat_sub(srat_add(x, o), o), x),
{
}

/// Multiplying then dividing by the same nonzero value cancels.
proof fn lemma_mul_div_cancel(x: SRat, f: SRat)
    by (nonlinear_arith)
    requires
        f.num != 0,
        f.den != 0,
        x.den != 0,
    ensures
        srat_eq(srat_div(srat_mul(x, f), f), x),
        srat_eq(srat_mul(srat_div(x, f), f), x),
{
}

/// Equal values stay equal under addition and subtraction of the same
/// value.
#[verifier::rlimit(100)]
proof fn lemma_add_congruence(x: SRat, y: SRat, o: SRat)
    requires
        srat_eq(x, y),
    ensures
        srat_eq(srat_add(x, o), srat_add(y, o)),
{
    let (xn, xd, yn, yd, on, od) = (x.num, x.den, y.num, y.den, o.num, o.den);
    assert((xn * od + on * xd) * (yd * od)
        == (xn * yd) * (od * od) + on * (xd * yd * od)) by (nonlinear_arith);
    assert((yn * od + on * yd) * (xd * od)
        == (yn * xd) * (od * od) + on * (xd * yd * od)) by (nonlinear_arith)
        requires true,
    ;
    assert((xn * yd) * (od * od) == (yn * xd) * (od * od)) by (nonlinear_arith)
        requires
            xn * yd == yn * xd,
    ;
}

#[verifier::rlimit(100)]
proof fn lemma_sub_congruence(x: SRat, y: SRat, o: SRat)
    requires
        srat_eq(x, y),
    ensures
        srat_eq(srat_sub(x, o), srat_sub(y, o)),
{
    let (xn, xd, yn, yd, on, od) = (x.num, x.den, y.num, y.den, o.num, o.den);
    assert((xn * od - on * xd) * (yd * od)
        == (xn * yd) * (od * od) - on * (xd * yd * od)) by (nonlinear_arith);
    assert((yn * od - on * yd) * (xd * od)
        == (yn * xd) * (od * od) - on * (xd * yd * od)) by (nonlinear_arith)
        requires true,
    ;
    assert((xn * yd) * (od * od) == (yn * xd) * (od * od)) by (nonlinear_arith)
        requires
            xn * yd == yn * xd,
    ;
}

/// Equal values stay equal under multiplication by the same value.
proof fn lemma_mul_congruence(x: SRat, y: SRat, o: SRat)
    by (nonlinear_arith)
    requires
        srat_eq(x, y),
    ensures
        srat_eq(srat_mul(x, o), srat_mul(y, o)),
{
}

proof fn lemma_div_congruence(x: SRat, y: SRat, o: SRat)
    by (nonlinear_arith)
    requires
        srat_eq(x, y),
    ensures
        srat_eq(srat_div(x, o), srat_div(y, o)),
{
}

/// Converting a value from a unit to itself gives the value back: the
/// conversion through the base unit is the identity whenever the unit's
/// factor is nonzero.
pub proof fn lemma_self_conversion(v: SRat, f: SRat, o: SRat)
    requires
        srat_wf(v),
        srat_wf(f),
        srat_wf(o),
        f.num != 0,
    ensures
        srat_eq(spec_convert_val(v, f, o, f, o), v),
        srat_wf(spec_convert_val(v, f, o, f, o)),
{
    let s1 = srat_add(v, o);
    let s2 = srat_mul(s1, f);
    let s3 = srat_div(s2, f);
    let s4 = srat_sub(s3, o);
    lemma_add_wf(v, o);
    lemma_add_wf(s1, f);
    lemma_div_wf(s2, f);
    lemma_add_wf(s3, o);
    lemma_mul_div_cancel(s1, f);
    lemma_add_wf(s1, o);
    lemma_sub_congruence(s3, s1, o);
    lemma_sub_add_cancel(srat_add(s1, o), o);
    assert(srat_eq(srat_sub(s3, o), srat_sub(s1, o)));
    lemma_sub_add_cancel(v, o);
    assert(srat_eq(srat_sub(srat_add(v, o), o), v));
    lemma_eq_trans(s4, srat_sub(s1, o), v);
}

/// Round trip: converting `v` from unit A to unit B and the result back
/// from B to A recovers `v` exactly, whenever both factors are nonzero.
pub proof fn lemma_round_trip(v: SRat, af: SRat, ao: SRat, bf: SRat, bo: SRat)
    requires
        srat_wf(v),
        srat_wf(af),
        srat_wf(ao),
        srat_wf(bf),
        srat_wf(bo),
        af.num != 0,
        bf.num != 0,
    ensures
        srat_eq(spec_convert_val(spec_convert_val(v, af, ao, bf, bo), bf, bo, af, ao), v),
{
    let t = srat_mul(srat_add(v, ao), af);
    let r1 = srat_sub(srat_div(t, bf), bo);
    lemma_add_wf(v, ao);
    lemma_add_wf(srat_add(v, ao), af);
    lemma_div_wf(t, bf);
    lemma_add_wf(srat_div(t, bf), bo);
    // Adding bo back cancels the subtraction.
    let u1 = srat_add(r1, bo);
    lemma_add_wf(r1, bo);
    lemma_sub_add_cancel(srat_div(t, bf), bo);
    assert(srat_eq(u1, srat_div(t, bf)));
    // Multiplying by bf cancels the division.
    let u2 = srat_mul(u1, bf);
    lemma_add_wf(u1, bf);
    lemma_add_wf(srat_div(t, bf), bf);
    lemma_mul_congruence(u1, srat_div(t, bf), bf);
    lemma_mul_div_cancel(t, bf);
    lemma_div_wf(t, bf);
    lemma_eq_trans(u2, srat_mul(srat_div(t, bf), bf), t);
    assert(srat_eq(u2, t));
    // Dividing by af cancels the multiplication.
    let u3 = srat_div(u2, af);
    lemma_div_wf(u2, af);
    lemma_div_congruence(u2, t, af);
    lemma_mul_div_cancel(srat_add(v, ao), af);
    lemma_div_wf(t, af);
    lemma_eq_trans(u3, srat_div(t, af), srat_add(v, ao));
    assert(srat_eq(u3, srat_add(v, ao)));
    // Subtracting ao cancels the addition.
    let u4 = srat_sub(u3, ao);
    lemma_sub_congruence(u3, srat_add(v, ao), ao);
    lemma_sub_add_cancel(v, ao);
    lemma_add_wf(srat_add(v, ao), ao);
    lemma_eq_trans(u4, srat_sub(srat_add(v, ao), ao), v);
    assert(srat_eq(u4, v));
}

/// An exactly registered symbol resolves to its own descriptor, whatever
/// the prefix table holds: the exact match takes priority over prefix
/// stripping. In particular this holds of a symbol just registered by
/// `add_conversion`.
pub proof fn lemma_resolve_exact(units: Seq<SUnit>, prefixes: Seq<SPrefix>, tok: Seq<char>)
    requires
        spec_lookup(units, tok) is Some,
    ensures
        spec_resolve(units, prefixes, tok) == (match spec_lookup(units, tok) {
            Some(e) => Some((e.factor, e.offset)),
            None => None::<(SRat, SRat)>,
        }),
{
}

/// A token that is not itself registered but starts with a matched prefix
/// resolves to the base entry's factor scaled by the prefix multiplier,
/// with the offset unscaled.
pub proof fn lemma_resolve_prefixed(units: Seq<SUnit>, prefixes: Seq<SPrefix>, tok: Seq<char>)
    requires
        spec_lookup(units, tok) is None,
        spec_first_prefix(prefixes, tok) is Some,
    ensures
        spec_resolve(units, prefixes, tok) == (match spec_first_prefix(prefixes, tok) {
            Some(p) => match spec_lookup(units, tok.skip(p.sym.len() as int)) {
                Some(e) => Some((srat_mul(e.factor, p.mult), e.offset)),
                None => None::<(SRat, SRat)>,
            },
            None => None::<(SRat, SRat)>,
        }),
{
}

/// Prefix correctness for offset-free units: `v` of the prefixed unit has
/// the same base value as `v` scaled by the multiplier has in the plain
/// unit — five kilometers are five thousand meters.
#[verifier::rlimit(100)]
pub proof fn lemma_prefix_scaling(v: SRat, f: SRat, m: SRat, o: SRat)
    requires
        o.num == 0,
    ensures
        srat_eq(
            srat_mul(srat_add(v, o), srat_mul(f, m)),
            srat_mul(srat_add(srat_mul(v, m), o), f),
        ),
{
    let (vn, vd, nf, fd, mn, md, on, od) =
        (v.num, v.den, f.num, f.den, m.num, m.den, o.num, o.den);
    let a = srat_mul(srat_add(v, o), srat_mul(f, m));
    let b = srat_mul(srat_add(srat_mul(v, m), o), f);
    assert(a.num == (vn * od) * (nf * mn)) by (nonlinear_arith)
        requires
            on == 0,
            a.num == (vn * od + on * vd) * (nf * mn),
    ;
    assert(b.num == ((vn * mn) * od) * nf) by (nonlinear_arith)
        requires
            on == 0,
            b.num == ((vn * mn) * od + on * (vd * md)) * nf,
    ;
    assert(((vn * od) * (nf * mn)) * (((vd * md) * od) * fd)
        == (((vn * mn) * od) * nf) * ((vd * od) * (fd * md))) by (nonlinear_arith)
        requires true,
    ;
}

} // verus!
