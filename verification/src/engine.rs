//! The conversion engine: a registry of unit symbols with linear conversion
//! descriptors, a table of metric prefixes, resolution of a raw unit token
//! (exact symbol match first, then prefix stripping in table order), and the
//! conversion of a parsed expression through the base unit.

use vstd::prelude::*;
use crate::rational::{
    Rat, SRat, srat_wf, srat_int, srat_add, srat_sub, srat_mul, srat_div,
    add_fits, sub_fits, mul_fits, div_fits,
};
use crate::render::spec_format;
use crate::text::{spec_tokens, spec_digit_run, spec_letter_run, digits_val, tokenize};

verus! {

/// The mathematical content of a registered unit: its symbol and the linear
/// descriptor mapping it to the base unit of its family,
/// `base = (value + offset) * factor`.
pub ghost struct SUnit {
    pub sym: Seq<char>,
    pub factor: SRat,
    pub offset: SRat,
}

/// The mathematical content of a metric prefix: its symbol and multiplier.
pub ghost struct SPrefix {
    pub sym: Seq<char>,
    pub mult: SRat,
}

struct UnitEntry {
    symbol: String,
    factor: Rat,
    offset: Rat,
}

impl View for UnitEntry {
    type V = SUnit;

    closed spec fn view(&self) -> SUnit {
        SUnit { sym: self.symbol@, factor: self.factor@, offset: self.offset@ }
    }
}

struct PrefixEntry {
    symbol: String,
    mult: Rat,
}

impl View for PrefixEntry {
    type V = SPrefix;

    closed spec fn view(&self) -> SPrefix {
        SPrefix { sym: self.symbol@, mult: self.mult@ }
    }
}

/// The first registry entry whose symbol is exactly `sym`.
pub open spec fn spec_lookup(units: Seq<SUnit>, sym: Seq<char>) -> Option<SUnit>
    decreases units.len(),
{
    if units.len() == 0 {
        None
    } else if units[0].sym == sym {
        Some(units[0])
    } else {
        spec_lookup(units.skip(1), sym)
    }
}

/// The first non-empty prefix in table order that `tok` starts with.
pub open spec fn spec_first_prefix(prefixes: Seq<SPrefix>, tok: Seq<char>) -> Option<SPrefix>
    decreases prefixes.len(),
{
    if prefixes.len() == 0 {
        None
    } else if prefixes[0].sym.len() > 0 && prefixes[0].sym.is_prefix_of(tok) {
        Some(prefixes[0])
    } else {
        spec_first_prefix(prefixes.skip(1), tok)
    }
}

/// Resolution of a raw unit token: an exact symbol match takes priority;
/// otherwise the first matching non-empty prefix is stripped and the
/// remainder must be a registered symbol. The effective factor is the entry
/// factor times the prefix multiplier; the offset is never scaled.
pub open spec fn spec_resolve(
    units: Seq<SUnit>,
    prefixes: Seq<SPrefix>,
    tok: Seq<char>,
) -> Option<(SRat, SRat)> {
    match spec_lookup(units, tok) {
        Some(u) => Some((u.factor, u.offset)),
        None => match spec_first_prefix(prefixes, tok) {
            None => None,
            Some(p) => match spec_lookup(units, tok.skip(p.sym.len() as int)) {
                Some(u) => Some((srat_mul(u.factor, p.mult), u.offset)),
                None => None,
            },
        },
    }
}

/// Whether resolving `tok` stays in the machine range: only the product of
/// an entry factor and a prefix multiplier is computed.
pub open spec fn resolve_fits(
    units: Seq<SUnit>,
    prefixes: Seq<SPrefix>,
    tok: Seq<char>,
) -> bool {
    match spec_lookup(units, tok) {
        Some(u) => true,
        None => match spec_first_prefix(prefixes, tok) {
            None => true,
            Some(p) => match spec_lookup(units, tok.skip(p.sym.len() as int)) {
                Some(u) => mul_fits(u.factor, p.mult),
                None => true,
            },
        },
    }
}

/// The exact conversion of `v` from a source descriptor to a destination
/// descriptor through the base unit:
/// `((v + from_offset) * from_factor) / to_factor - to_offset`.
pub open spec fn spec_convert_val(v: SRat, ff: SRat, fo: SRat, tf: SRat, to: SRat) -> SRat {
    srat_sub(srat_div(srat_mul(srat_add(v, fo), ff), tf), to)
}

/// Whether each intermediate of [`spec_convert_val`] stays in the machine
/// range.
pub open spec fn val_fits(v: SRat, ff: SRat, fo: SRat, tf: SRat, to: SRat) -> bool {
    add_fits(v, fo)
        && mul_fits(srat_add(v, fo), ff)
        && div_fits(srat_mul(srat_add(v, fo), ff), tf)
        && sub_fits(srat_div(srat_mul(srat_add(v, fo), ff), tf), to)
}

/// The initial unit registry: lengths against the meter, temperatures
/// against the Celsius degree.
pub open spec fn initial_units() -> Seq<SUnit> {
    seq![
        SUnit { sym: "m"@, factor: srat_int(1), offset: srat_int(0) },
        SUnit { sym: "mile"@, factor: SRat { num: 160934, den: 100 }, offset: srat_int(0) },
        SUnit { sym: "yard"@, factor: SRat { num: 9144, den: 10000 }, offset: srat_int(0) },
        SUnit { sym: "foot"@, factor: SRat { num: 3048, den: 10000 }, offset: srat_int(0) },
        SUnit { sym: "inch"@, factor: SRat { num: 254, den: 10000 }, offset: srat_int(0) },
        SUnit { sym: "C"@, factor: srat_int(1), offset: srat_int(0) },
        SUnit { sym: "K"@, factor: srat_int(1), offset: SRat { num: -27315, den: 100 } },
        SUnit { sym: "F"@, factor: SRat { num: 5, den: 9 }, offset: SRat { num: -32, den: 1 } },
    ]
}

/// The initial prefix table, in scan order. The empty symbol stands for "no
/// prefix" and is skipped during prefix matching.
pub open spec fn initial_prefixes() -> Seq<SPrefix> {
    seq![
        SPrefix { sym: "n"@, mult: SRat { num: 1, den: 1000000000 } },
        SPrefix { sym: "μ"@, mult: SRat { num: 1, den: 1000000 } },
        SPrefix { sym: "m"@, mult: SRat { num: 1, den: 1000 } },
        SPrefix { sym: "c"@, mult: SRat { num: 1, den: 100 } },
        SPrefix { sym: ""@, mult: srat_int(1) },
        SPrefix { sym: "k"@, mult: srat_int(1000) },
        SPrefix { sym: "M"@, mult: srat_int(1000000) },
        SPrefix { sym: "G"@, mult: srat_int(1000000000) },
    ]
}

/// A unit-conversion engine: a mutable unit registry and a fixed prefix
/// table.
pub struct Converter {
    units: Vec<UnitEntry>,
    prefixes: Vec<PrefixEntry>,
}

impl Converter {
    /// The registry contents.
    pub closed spec fn units_view(&self) -> Seq<SUnit> {
        self.units@.map_values(|u: UnitEntry| u@)
    }

    /// The prefix table contents.
    pub closed spec fn prefixes_view(&self) -> Seq<SPrefix> {
        self.prefixes@.map_values(|p: PrefixEntry| p@)
    }

    /// Well-formedness: every stored rational has a positive denominator,
    /// and registered symbols are pairwise distinct.
    pub open spec fn wf(&self) -> bool {
        let ghost us = self.units_view();
        let ghost ps = self.prefixes_view();
        (forall|i: int| 0 <= i < us.len()
            ==> srat_wf(#[trigger] us[i].factor) && srat_wf(us[i].offset))
        && (forall|i: int, j: int| 0 <= i < j < us.len() ==> us[i].sym != us[j].sym)
        && (forall|i: int| 0 <= i < ps.len() ==> srat_wf(#[trigger] ps[i].mult))
    }

    /// Builds an engine with the initial registry and prefix table.
    pub fn new() -> (r: Converter)
        ensures
            r.wf(),
            r.units_view() == initial_units(),
            r.prefixes_view() == initial_prefixes(),
    {
        let mut units: Vec<UnitEntry> = Vec::new();
        units.push(UnitEntry {
            symbol: String::from_str("m"),
            factor: Rat::new(1, 1),
            offset: Rat::new(0, 1),
        });
        units.push(UnitEntry {
            symbol: String::from_str("mile"),
            factor: Rat::new(160934, 100),
            offset: Rat::new(0, 1),
        });
        units.push(UnitEntry {
            symbol: String::from_str("yard"),
            factor: Rat::new(9144, 10000),
            offset: Rat::new(0, 1),
        });
        units.push(UnitEntry {
            symbol: String::from_str("foot"),
            factor: Rat::new(3048, 10000),
            offset: Rat::new(0, 1),
        });
        units.push(UnitEntry {
            symbol: String::from_str("inch"),
            factor: Rat::new(254, 10000),
            offset: Rat::new(0, 1),
        });
        units.push(UnitEntry {
            symbol: String::from_str("C"),
            factor: Rat::new(1, 1),
            offset: Rat::new(0, 1),
        });
        units.push(UnitEntry {
            symbol: String::from_str("K"),
            factor: Rat::new(1, 1),
            offset: Rat::new(-27315, 100),
        });
        units.push(UnitEntry {
            symbol: String::from_str("F"),
            factor: Rat::new(5, 9),
            offset: Rat::new(-32, 1),
        });
        let mut prefixes: Vec<PrefixEntry> = Vec::new();
        prefixes.push(PrefixEntry { symbol: String::from_str("n"), mult: Rat::new(1, 1000000000) });
        prefixes.push(PrefixEntry { symbol: String::from_str("μ"), mult: Rat::new(1, 1000000) });
        prefixes.push(PrefixEntry { symbol: String::from_str("m"), mult: Rat::new(1, 1000) });
        prefixes.push(PrefixEntry { symbol: String::from_str("c"), mult: Rat::new(1, 100) });
        prefixes.push(PrefixEntry { symbol: String::from_str(""), mult: Rat::new(1, 1) });
        prefixes.push(PrefixEntry { symbol: String::from_str("k"), mult: Rat::new(1000, 1) });
        prefixes.push(PrefixEntry { symbol: String::from_str("M"), mult: Rat::new(1000000, 1) });
        prefixes.push(PrefixEntry { symbol: String::from_str("G"), mult: Rat::new(1000000000, 1) });
        let r = Converter { units, prefixes };
        proof {
            reveal_strlit("m");
            reveal_strlit("mile");
            reveal_strlit("yard");
            reveal_strlit("foot");
            reveal_strlit("inch");
            reveal_strlit("C");
            reveal_strlit("K");
            reveal_strlit("F");
            assert(r.units_view() =~= initial_units());
            assert(r.prefixes_view() =~= initial_prefixes());
            assert forall|i: int, j: int| 0 <= i < j < r.units_view().len()
                implies r.units_view()[i].sym != r.units_view()[j].sym by {
                let us = initial_units();
                assert(us[1].sym.len() == 4 && us[2].sym.len() == 4 && us[3].sym.len() == 4
                    && us[4].sym.len() == 4);
                assert(us[0].sym.len() == 1 && us[5].sym.len() == 1 && us[6].sym.len() == 1
                    && us[7].sym.len() == 1);
                assert(us[1].sym[0] == 'm' && us[2].sym[0] == 'y' && us[3].sym[0] == 'f'
                    && us[4].sym[0] == 'i');
                assert(us[0].sym[0] == 'm' && us[5].sym[0] == 'C' && us[6].sym[0] == 'K'
                    && us[7].sym[0] == 'F');
            }
        }
        r
    }

    /// Index of the registry entry whose symbol is exactly `sym`.
    fn lookup_idx(&self, sym: &String) -> (r: Option<usize>)
        ensures
            r matches Some(i) ==> (i < self.units_view().len()
                && spec_lookup(self.units_view(), sym@) == Some(self.units_view()[i as int])
                && self.units_view()[i as int].sym == sym@),
            r is None ==> spec_lookup(self.units_view(), sym@) is None,
    {
        let ghost us = self.units_view();
        let n = self.units.len();
        let mut i: usize = 0;
        proof {
            assert(us.skip(0) =~= us);
        }
        while i < n
            invariant
                i <= n,
                n == us.len(),
                us == self.units_view(),
                spec_lookup(us, sym@) == spec_lookup(us.skip(i as int), sym@),
            decreases n - i,
        {
            proof {
                assert(us.skip(i as int)[0] == us[i as int]);
                assert(us.skip(i as int).skip(1) =~= us.skip(i as int + 1));
            }
            if self.units[i].symbol == *sym {
                return Some(i);
            }
            i = i + 1;
        }
        proof {
            assert(us.skip(n as int).len() == 0);
        }
        None
    }

    /// Whether `tok` starts with the non-empty symbol `p`.
    fn tok_starts_with(tok: &str, p: &String) -> (r: bool)
        ensures
            r == p@.is_prefix_of(tok@),
    {
        let pl = p.as_str().unicode_len();
        let tl = tok.unicode_len();
        if pl > tl {
            return false;
        }
        let head = tok.substring_char(0, pl);
        let owned = head.to_owned();
        let r = owned == *p;
        proof {
            if r {
                assert(p@ =~= tok@.subrange(0, p@.len() as int));
            } else {
                assert(!(p@ =~= tok@.subrange(0, p@.len() as int)));
            }
        }
        r
    }

    /// Index of the first non-empty prefix that `tok` starts with, in table
    /// order.
    fn first_prefix_idx(&self, tok: &str) -> (r: Option<usize>)
        ensures
            r matches Some(i) ==> (i < self.prefixes_view().len()
                && spec_first_prefix(self.prefixes_view(), tok@)
                    == Some(self.prefixes_view()[i as int])),
            r is None ==> spec_first_prefix(self.prefixes_view(), tok@) is None,
    {
        let ghost ps = self.prefixes_view();
        let n = self.prefixes.len();
        let mut i: usize = 0;
        proof {
            assert(ps.skip(0) =~= ps);
        }
        while i < n
            invariant
                i <= n,
                n == ps.len(),
                ps == self.prefixes_view(),
                spec_first_prefix(ps, tok@) == spec_first_prefix(ps.skip(i as int), tok@),
            decreases n - i,
        {
            proof {
                assert(ps.skip(i as int)[0] == ps[i as int]);
                assert(ps.skip(i as int).skip(1) =~= ps.skip(i as int + 1));
            }
            let pl = self.prefixes[i].symbol.as_str().unicode_len();
            if pl > 0 && Self::tok_starts_with(tok, &self.prefixes[i].symbol) {
                return Some(i);
            }
            i = i + 1;
        }
        proof {
            assert(ps.skip(n as int).len() == 0);
        }
        None
    }
}

/// A matched prefix is non-empty and a prefix of the token.
proof fn lemma_first_prefix_props(prefixes: Seq<SPrefix>, tok: Seq<char>)
    ensures
        spec_first_prefix(prefixes, tok) matches Some(p)
            ==> p.sym.len() > 0 && p.sym.is_prefix_of(tok),
    decreases prefixes.len(),
{
    if prefixes.len() == 0 {
    } else if prefixes[0].sym.len() > 0 && prefixes[0].sym.is_prefix_of(tok) {
    } else {
        lemma_first_prefix_props(prefixes.skip(1), tok);
    }
}

/// A failed lookup means no entry carries the symbol.
proof fn lemma_lookup_none_no_match(units: Seq<SUnit>, k: Seq<char>)
    requires
        spec_lookup(units, k) is None,
    ensures
        forall|j: int| 0 <= j < units.len() ==> (#[trigger] units[j]).sym != k,
    decreases units.len(),
{
    if units.len() == 0 {
    } else {
        assert(units.skip(1)[0] == units[1] || units.len() <= 1);
        lemma_lookup_none_no_match(units.skip(1), k);
        assert forall|j: int| 0 <= j < units.len() implies (#[trigger] units[j]).sym != k by {
            if j > 0 {
                assert(units.skip(1)[j - 1] == units[j]);
            }
        }
    }
}

/// Replacing the unique entry that carries a symbol updates the lookup at
/// that symbol and nothing else.
proof fn lemma_lookup_update(units: Seq<SUnit>, i: int, e: SUnit, k: Seq<char>)
    requires
        0 <= i < units.len(),
        units[i].sym == e.sym,
        forall|a: int, b: int| 0 <= a < b < units.len() ==> units[a].sym != units[b].sym,
    ensures
        spec_lookup(units.update(i, e), k)
            == (if k == e.sym { Some(e) } else { spec_lookup(units, k) }),
    decreases i,
{
    let u2 = units.update(i, e);
    if i == 0 {
        assert(u2[0] == e);
        if k == e.sym {
        } else {
            assert(u2.skip(1) =~= units.skip(1));
        }
    } else {
        assert(u2[0] == units[0]);
        if k == units[0].sym {
            assert(units[0].sym != units[i].sym);
        } else {
            let rest = units.skip(1);
            assert forall|a: int, b: int| 0 <= a < b < rest.len()
                implies rest[a].sym != rest[b].sym by {
                assert(rest[a] == units[a + 1]);
                assert(rest[b] == units[b + 1]);
            }
            assert(rest[i - 1] == units[i]);
            lemma_lookup_update(rest, i - 1, e, k);
            assert(u2.skip(1) =~= rest.update(i - 1, e));
        }
    }
}

/// Appending an entry leaves every present symbol's lookup unchanged and
/// adds the new one.
proof fn lemma_lookup_push(units: Seq<SUnit>, e: SUnit, k: Seq<char>)
    ensures
        spec_lookup(units.push(e), k) == (if spec_lookup(units, k) is Some {
            spec_lookup(units, k)
        } else if k == e.sym {
            Some(e)
        } else {
            None::<SUnit>
        }),
    decreases units.len(),
{
    let u2 = units.push(e);
    assert(u2.len() == units.len() + 1);
    if units.len() == 0 {
        assert(u2[0] == e);
        assert(u2.skip(1) =~= Seq::<SUnit>::empty());
        assert(spec_lookup(units, k) is None);
        if e.sym == k {
            assert(spec_lookup(u2, k) == Some(e));
        } else {
            assert(spec_lookup(u2, k) == spec_lookup(u2.skip(1), k));
            assert(spec_lookup(u2, k) is None);
        }
    } else {
        assert(u2[0] == units[0]);
        if units[0].sym == k {
            assert(spec_lookup(u2, k) == Some(units[0]));
            assert(spec_lookup(units, k) == Some(units[0]));
        } else {
            lemma_lookup_push(units.skip(1), e, k);
            assert(u2.skip(1) =~= units.skip(1).push(e));
            assert(spec_lookup(u2, k) == spec_lookup(units.skip(1).push(e), k));
            assert(spec_lookup(units, k) == spec_lookup(units.skip(1), k));
        }
    }
}

/// How the engine can fail on an expression, stated over mathematical
/// values.
pub ghost enum SpecErr {
    /// Bad token count, or no letter run in the quantity token.
    InvalidFormat,
    /// No digit run in the quantity token.
    InvalidNumber,
    /// A unit token that resolves to no registered unit.
    InvalidUnit(Seq<char>),
    /// The exact result leaves the machine range, or a conversion factor is
    /// zero.
    Unrepresentable,
}

/// How a call of [`Converter::convert`] can fail.
#[derive(Debug)]
pub enum ConvError {
    /// The expression has no tokens or more than three, or its first token
    /// contains no letters.
    InvalidFormat,
    /// The first token contains no digits.
    InvalidNumber,
    /// The named token resolves to no registered unit.
    InvalidUnit(String),
    /// The exact result, or an intermediate of the evaluation, leaves the
    /// machine range, or the destination factor is zero.
    Unrepresentable,
}

/// Whether an executable error carries the meaning of a spec-level error.
pub open spec fn err_matches(e: ConvError, se: SpecErr) -> bool {
    match e {
        ConvError::InvalidFormat => se is InvalidFormat,
        ConvError::InvalidNumber => se is InvalidNumber,
        ConvError::InvalidUnit(t) => se matches SpecErr::InvalidUnit(tok) && t@ == tok,
        ConvError::Unrepresentable => se is Unrepresentable,
    }
}

/// The exact outcome of converting the expression `input` against a
/// registry: the rendered result string, or the error. Arithmetic here is
/// unbounded; a zero destination factor is the one unrepresentable case.
pub open spec fn spec_outcome(
    units: Seq<SUnit>,
    prefixes: Seq<SPrefix>,
    input: Seq<char>,
) -> Result<Seq<char>, SpecErr> {
    let toks = spec_tokens(input);
    if toks.len() < 1 || toks.len() > 3 {
        Err(SpecErr::InvalidFormat)
    } else {
        match spec_digit_run(toks[0]) {
            None => Err(SpecErr::InvalidNumber),
            Some(dr) => match spec_letter_run(toks[0]) {
                None => Err(SpecErr::InvalidFormat),
                Some(src) => {
                    let dst = if toks.len() == 3 { toks[2] } else { src };
                    match spec_resolve(units, prefixes, src) {
                        None => Err(SpecErr::InvalidUnit(src)),
                        Some(from) => match spec_resolve(units, prefixes, dst) {
                            None => Err(SpecErr::InvalidUnit(dst)),
                            Some(to) => if to.0.num == 0 {
                                Err(SpecErr::Unrepresentable)
                            } else {
                                Ok(
                                    spec_format(
                                        spec_convert_val(
                                            srat_int(digits_val(dr)),
                                            from.0,
                                            from.1,
                                            to.0,
                                            to.1,
                                        ),
                                    ) + seq![' '] + dst,
                                )
                            },
                        },
                    }
                },
            },
        }
    }
}

/// Whether the evaluation of `input` stays in the machine range, step by
/// step along the fixed evaluation order. Meaningful where [`spec_outcome`]
/// succeeds; `true` elsewhere.
pub open spec fn spec_fits(
    units: Seq<SUnit>,
    prefixes: Seq<SPrefix>,
    input: Seq<char>,
) -> bool {
    let toks = spec_tokens(input);
    if toks.len() < 1 || toks.len() > 3 {
        true
    } else {
        match spec_digit_run(toks[0]) {
            None => true,
            Some(dr) => match spec_letter_run(toks[0]) {
                None => true,
                Some(src) => {
                    let dst = if toks.len() == 3 { toks[2] } else { src };
                    match spec_resolve(units, prefixes, src) {
                        None => true,
                        Some(from) => match spec_resolve(units, prefixes, dst) {
                            None => true,
                            Some(to) => if to.0.num == 0 {
                                true
                            } else {
                                digits_val(dr) <= i64::MAX
                                    && resolve_fits(units, prefixes, src)
                                    && resolve_fits(units, prefixes, dst)
                                    && val_fits(
                                        srat_int(digits_val(dr)),
                                        from.0,
                                        from.1,
                                        to.0,
                                        to.1,
                                    )
                            },
                        },
                    }
                },
            },
        }
    }
}

impl Converter {
    /// The pieces a unit token resolves to: the base entry's factor and
    /// offset, and the matched prefix's multiplier where one was stripped.
    fn resolve_parts(&self, sym: &String) -> (r: Option<(Rat, Rat, Option<Rat>)>)
        requires
            self.wf(),
        ensures
            r is None <==> spec_resolve(self.units_view(), self.prefixes_view(), sym@) is None,
            r matches Some(t) ==> (t.0.wf() && t.1.wf() && match t.2 {
                None => spec_resolve(self.units_view(), self.prefixes_view(), sym@)
                        == Some((t.0@, t.1@))
                    && resolve_fits(self.units_view(), self.prefixes_view(), sym@),
                Some(m) => m.wf()
                    && spec_resolve(self.units_view(), self.prefixes_view(), sym@)
                        == Some((srat_mul(t.0@, m@), t.1@))
                    && (resolve_fits(self.units_view(), self.prefixes_view(), sym@)
                        <==> mul_fits(t.0@, m@)),
            }),
    {
        let ghost us = self.units_view();
        let ghost ps = self.prefixes_view();
        match self.lookup_idx(sym) {
            Some(i) => {
                return Some((self.units[i].factor, self.units[i].offset, None));
            },
            None => {},
        }
        match self.first_prefix_idx(sym.as_str()) {
            None => None,
            Some(pi) => {
                proof {
                    lemma_first_prefix_props(ps, sym@);
                }
                let plen = self.prefixes[pi].symbol.as_str().unicode_len();
                let slen = sym.as_str().unicode_len();
                let base = sym.as_str().substring_char(plen, slen).to_owned();
                proof {
                    assert(base@ =~= sym@.skip(ps[pi as int].sym.len() as int));
                }
                match self.lookup_idx(&base) {
                    Some(bi) => Some((
                        self.units[bi].factor,
                        self.units[bi].offset,
                        Some(self.prefixes[pi].mult),
                    )),
                    None => None,
                }
            },
        }
    }

    /// Registers `unit`, or overwrites its entry: afterwards exactly that
    /// symbol looks up to the given descriptor, and every other symbol is
    /// unchanged. The prefix table is untouched. No validity check is made
    /// on `factor`: registering a zero factor makes conversions into the
    /// unit unrepresentable.
    pub fn add_conversion(&mut self, unit: String, factor: Rat, offset: Rat)
        requires
            old(self).wf(),
            factor.wf(),
            offset.wf(),
        ensures
            final(self).wf(),
            final(self).prefixes_view() == old(self).prefixes_view(),
            forall|k: Seq<char>| #[trigger] spec_lookup(final(self).units_view(), k)
                == (if k == unit@ {
                    Some(SUnit { sym: unit@, factor: factor@, offset: offset@ })
                } else {
                    spec_lookup(old(self).units_view(), k)
                }),
    {
        let ghost us = old(self).units_view();
        let ghost e = SUnit { sym: unit@, factor: factor@, offset: offset@ };
        match self.lookup_idx(&unit) {
            Some(i) => {
                self.units.remove(i);
                self.units.insert(i, UnitEntry { symbol: unit, factor, offset });
                proof {
                    assert(self.units@ =~= old(self).units@.update(i as int,
                        self.units@[i as int]));
                    assert(self.units_view() =~= us.update(i as int, e));
                    assert forall|k: Seq<char>| #[trigger] spec_lookup(self.units_view(), k)
                        == (if k == unit@ { Some(e) } else { spec_lookup(us, k) }) by {
                        lemma_lookup_update(us, i as int, e, k);
                    }
                    let vs = self.units_view();
                    assert forall|a: int| 0 <= a < vs.len()
                        implies srat_wf((#[trigger] vs[a]).factor) && srat_wf(vs[a].offset) by {
                        if a != i as int {
                            assert(vs[a] == us[a]);
                        }
                    }
                    assert forall|a: int, b: int| 0 <= a < b < vs.len()
                        implies vs[a].sym != vs[b].sym by {
                        assert(vs[a].sym == us[a].sym);
                        assert(vs[b].sym == us[b].sym);
                    }
                }
            },
            None => {
                self.units.push(UnitEntry { symbol: unit, factor, offset });
                proof {
                    assert(self.units_view() =~= us.push(e));
                    lemma_lookup_none_no_match(us, e.sym);
                    assert forall|k: Seq<char>| #[trigger] spec_lookup(self.units_view(), k)
                        == (if k == unit@ { Some(e) } else { spec_lookup(us, k) }) by {
                        lemma_lookup_push(us, e, k);
                    }
                    let vs = self.units_view();
                    assert forall|a: int| 0 <= a < vs.len()
                        implies srat_wf((#[trigger] vs[a]).factor) && srat_wf(vs[a].offset) by {
                        if a < us.len() {
                            assert(vs[a] == us[a]);
                        } else {
                            assert(vs[a] == e);
                        }
                    }
                    assert forall|a: int, b: int| 0 <= a < b < vs.len()
                        implies vs[a].sym != vs[b].sym by {
                        assert(vs[a] == us[a]);
                        if b < us.len() {
                            assert(vs[b] == us[b]);
                        } else {
                            assert(vs[b] == e);
                        }
                    }
                }
            },
        }
        proof {
            let ps = self.prefixes_view();
            assert(ps =~= old(self).prefixes_view());
            assert forall|i: int| 0 <= i < ps.len()
                implies srat_wf((#[trigger] ps[i]).mult) by {
                assert(ps[i] == old(self).prefixes_view()[i]);
            }
        }
    }

    /// Evaluates a conversion expression of one to three whitespace-separated
    /// tokens: the first token carries the value (its first digit run) and
    /// the source unit (its first letter run); the optional third token is
    /// the destination unit, defaulting to the source unit. The result is
    /// the exact conversion, rendered to two decimals with trailing zeros
    /// trimmed, a space, and the destination token. Errors are exactly as
    /// [`spec_outcome`] states; an expression whose exact evaluation leaves
    /// the machine range is reported as unrepresentable rather than
    /// approximated.
    pub fn convert(&self, input: String) -> (r: Result<String, ConvError>)
        requires
            self.wf(),
        ensures
            (match spec_outcome(self.units_view(), self.prefixes_view(), input@) {
                Ok(s) => if spec_fits(self.units_view(), self.prefixes_view(), input@) {
                    r matches Ok(os) && os@ == s
                } else {
                    r matches Err(e) && e is Unrepresentable
                },
                Err(se) => r matches Err(e) && err_matches(e, se),
            }),
    {
        let ghost us = self.units_view();
        let ghost ps = self.prefixes_view();
        let toks = tokenize(input.as_str());
        let ghost stoks = spec_tokens(input@);
        if toks.len() < 1 || toks.len() > 3 {
            return Err(ConvError::InvalidFormat);
        }
        let t0: &str = toks[0];
        proof {
            assert(t0@ == crate::text::views_of(toks@)[0]);
        }
        let (ds, de) = match crate::text::find_digit_run(t0) {
            None => {
                return Err(ConvError::InvalidNumber);
            },
            Some(p) => p,
        };
        let (ls, le) = match crate::text::find_letter_run(t0) {
            None => {
                return Err(ConvError::InvalidFormat);
            },
            Some(p) => p,
        };
        let src: String = t0.substring_char(ls, le).to_owned();
        let dst: String = if toks.len() == 3 {
            let t2: &str = toks[2];
            proof {
                assert(t2@ == crate::text::views_of(toks@)[2]);
            }
            t2.to_owned()
        } else {
            src.clone()
        };
        let from_parts = match self.resolve_parts(&src) {
            None => {
                return Err(ConvError::InvalidUnit(src));
            },
            Some(t) => t,
        };
        let to_parts = match self.resolve_parts(&dst) {
            None => {
                return Err(ConvError::InvalidUnit(dst));
            },
            Some(t) => t,
        };
        let to_zero = to_parts.0.is_zero() || (match to_parts.2 {
            Some(m) => m.is_zero(),
            None => false,
        });
        proof {
            if let Some(m) = to_parts.2 {
                assert(srat_mul(to_parts.0@, m@).num == 0
                    <==> to_parts.0@.num == 0 || m@.num == 0) by (nonlinear_arith);
            }
        }
        if to_zero {
            return Err(ConvError::Unrepresentable);
        }
        let run = t0.substring_char(ds, de);
        proof {
            crate::text::lemma_digit_run_digits(t0@);
        }
        let value = match crate::text::parse_digits(run) {
            None => {
                return Err(ConvError::Unrepresentable);
            },
            Some(v) => v,
        };
        let ff = match from_parts.2 {
            None => from_parts.0,
            Some(m) => match from_parts.0.try_mul(&m) {
                None => {
                    return Err(ConvError::Unrepresentable);
                },
                Some(f) => f,
            },
        };
        let tf = match to_parts.2 {
            None => to_parts.0,
            Some(m) => match to_parts.0.try_mul(&m) {
                None => {
                    return Err(ConvError::Unrepresentable);
                },
                Some(f) => f,
            },
        };
        proof {
            if let Some(m) = to_parts.2 {
                assert(srat_mul(to_parts.0@, m@).num == 0
                    <==> to_parts.0@.num == 0 || m@.num == 0) by (nonlinear_arith);
            }
        }
        let a = Rat::from_int(value);
        let s1 = match a.try_add(&from_parts.1) {
            None => {
                return Err(ConvError::Unrepresentable);
            },
            Some(x) => x,
        };
        let s2 = match s1.try_mul(&ff) {
            None => {
                return Err(ConvError::Unrepresentable);
            },
            Some(x) => x,
        };
        let s3 = match s2.try_div(&tf) {
            None => {
                return Err(ConvError::Unrepresentable);
            },
            Some(x) => x,
        };
        let s4 = match s3.try_sub(&to_parts.1) {
            None => {
                return Err(ConvError::Unrepresentable);
            },
            Some(x) => x,
        };
        let mut out = crate::render::format_number(&s4);
        proof {
            reveal_strlit(" ");
            assert(" "@ =~= seq![' ']);
        }
        out.append(" ");
        out.append(dst.as_str());
        Ok(out)
    }
}

} // verus!
