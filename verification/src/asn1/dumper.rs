//! The decoder's state: options, position and the counts of what went
//! wrong.

use crate::asn1::config::Config;
use crate::asn1::decode::{decode_unit, unit_at, unit_outcome};
use crate::asn1::header::{parse_header, read_header, Asn1Item, Asn1ItemView};
use crate::asn1::decode::all_wf;
use crate::asn1::laws::{
    all_exact, contiguous, exact, law_dump_is_exact, law_units_are_exact, run_end,
};
use crate::asn1::tags::{
    universal_name, BITSTRING, BMPSTRING, BOOLEAN, EMBEDDED_PDV, ENUMERATED, EOC, EXTERNAL,
    GENERALIZEDTIME, GENERALSTRING, GRAPHICSTRING, IA5STRING, INTEGER, NULLTAG, NUMERICSTRING,
    OBJDESCRIPTOR, OCTETSTRING, OID, PRINTABLESTRING, REAL, SEQUENCE, SET, T61STRING,
    UNIVERSALSTRING, UTCTIME, UTF8STRING, VIDEOTEXSTRING, VISIBLESTRING,
};
use crate::asn1::value::{units_view, Asn1Unit, Asn1UnitView, Asn1Value, Asn1ValueView};
use crate::diagnostics::capped;
use crate::error::DecodeError;
use vstd::prelude::*;

verus! {

/// The errors that a value counts for: one for each UTF8String that is not
/// well-formed and each unit that lacks the content it needs, in the value
/// and in the units nested in it.
pub open spec fn value_errors(v: Asn1ValueView) -> nat
    decreases v,
{
    match v {
        Asn1ValueView::InvalidUtf8(_) => 1,
        Asn1ValueView::ZeroLength => 1,
        Asn1ValueView::Constructed(units) => units_errors(units),
        _ => 0,
    }
}

/// The errors that a run of units counts for.
pub open spec fn units_errors(units: Seq<Asn1UnitView>) -> nat
    decreases units,
{
    if units.len() == 0 {
        0
    } else {
        units_errors(units.drop_last()) + value_errors(units.last().value)
    }
}

/// The warnings that a header counts for: one where its length is not in the
/// shortest form and the options ask to hear of it.
pub open spec fn header_warnings(h: Asn1ItemView, cfg: Config) -> nat {
    if cfg.warn_non_canonical && h.non_canonical {
        1
    } else {
        0
    }
}

/// The warnings that a value counts for: one for each opaque payload in it
/// and one for each header in it that `header_warnings` counts.
pub open spec fn value_warnings(v: Asn1ValueView, cfg: Config) -> nat
    decreases v,
{
    match v {
        Asn1ValueView::Opaque(_) => 1,
        Asn1ValueView::Constructed(units) => units_warnings(units, cfg),
        _ => 0,
    }
}

/// The warnings that a run of units counts for.
pub open spec fn units_warnings(units: Seq<Asn1UnitView>, cfg: Config) -> nat
    decreases units,
{
    if units.len() == 0 {
        0
    } else {
        units_warnings(units.drop_last(), cfg) + header_warnings(units.last().header, cfg)
            + value_warnings(units.last().value, cfg)
    }
}

/// A unit appended to a run adds its own errors and warnings to those of the
/// run.
pub proof fn lemma_tally_push(units: Seq<Asn1UnitView>, u: Asn1UnitView, cfg: Config)
    ensures
        units_errors(units.push(u)) == units_errors(units) + value_errors(u.value),
        units_warnings(units.push(u), cfg) == units_warnings(units, cfg) + header_warnings(
            u.header,
            cfg,
        ) + value_warnings(u.value, cfg),
{
    assert(units.push(u).drop_last() =~= units);
    assert(units.push(u).last() == u);
}

/// Counts the errors and warnings of a value, each capped at `usize::MAX`.
pub fn tally_value(value: &Asn1Value, config: &Config) -> (r: (usize, usize))
    ensures
        r.0 == capped(value_errors(value.view()) as int),
        r.1 == capped(value_warnings(value.view(), *config) as int),
    decreases value,
{
    match value {
        Asn1Value::InvalidUtf8(_) => (1, 0),
        Asn1Value::ZeroLength => (1, 0),
        Asn1Value::Opaque(_) => (0, 1),
        Asn1Value::Constructed(units) => {
            let r = tally_units(units, config);
            assert(value.view()->Constructed_0 =~= units_view(units@));
            r
        },
        _ => (0, 0),
    }
}

/// Counts the errors and warnings of a run of units, each capped at
/// `usize::MAX`.
pub fn tally_units(units: &Vec<Asn1Unit>, config: &Config) -> (r: (usize, usize))
    ensures
        r.0 == capped(units_errors(units_view(units@)) as int),
        r.1 == capped(units_warnings(units_view(units@), *config) as int),
    decreases units,
{
    let mut errors: usize = 0;
    let mut warnings: usize = 0;
    let mut i: usize = 0;
    let ghost views = units_view(units@);
    assert(views.take(0) =~= Seq::<Asn1UnitView>::empty());
    while i < units.len()
        invariant
            i <= units@.len(),
            views == units_view(units@),
            errors == capped(units_errors(views.take(i as int)) as int),
            warnings == capped(units_warnings(views.take(i as int), *config) as int),
        decreases units@.len() - i,
    {
        let unit = &units[i];
        let (e, w) = tally_value(&unit.value, config);
        proof {
            assert(views.take(i + 1).drop_last() =~= views.take(i as int));
            assert(views.take(i + 1).last() == unit.view());
        }
        errors = errors.saturating_add(e);
        warnings = warnings.saturating_add(w);
        if config.warn_non_canonical && unit.header.non_canonical {
            warnings = warnings.saturating_add(1);
        }
        i = i + 1;
    }
    assert(views.take(i as int) =~= views);
    (errors, warnings)
}

/// What a whole input decodes to: the outermost units in order and, where
/// decoding stopped before the end of the input, the failure that stopped it.
#[derive(Debug, PartialEq, Eq)]
pub struct Asn1Dump {
    pub units: Vec<Asn1Unit>,
    pub failure: Option<DecodeError>,
}

/// The mathematical value of an `Asn1Dump`, with the position at which
/// decoding stopped.
pub struct Asn1DumpView {
    pub units: Seq<Asn1UnitView>,
    pub failure: Option<DecodeError>,
    pub end: int,
}

/// The outermost units that follow the units `acc` from `pos` to the end of
/// `s`. Decoding stops at the first failure. The test on `p` says again
/// that every unit moves the position forward.
pub open spec fn dump_at(s: Seq<u8>, pos: int, cfg: Config, acc: Seq<Asn1UnitView>) -> Asn1DumpView
    decreases s.len() - pos,
{
    match unit_at(s, pos, s.len() as int, 0, cfg) {
        (Err(e), p) => Asn1DumpView { units: acc, failure: Some(e), end: p },
        (Ok(None), p) => Asn1DumpView { units: acc, failure: None, end: p },
        (Ok(Some(u)), p) => if !(pos < p <= s.len()) {
            Asn1DumpView { units: acc, failure: Some(DecodeError::Truncated), end: p }
        } else {
            dump_at(s, p, cfg, acc.push(u))
        },
    }
}

/// The errors that a dump counts for: those of its units and one for the
/// failure that ended it.
pub open spec fn dump_errors(d: Asn1DumpView) -> nat {
    units_errors(d.units) + if d.failure is Some {
        1nat
    } else {
        0nat
    }
}

/// Decoder state.
pub struct Asn1Dumper {
    /// The options.
    pub config: Config,
    /// Errors counted so far; stops at `usize::MAX`.
    pub no_errors: usize,
    /// Warnings counted so far; stops at `usize::MAX`.
    pub no_warnings: usize,
    /// Offset of the next byte to read.
    pub f_pos: usize,
}

impl Asn1Dumper {
    /// A decoder at offset 0 that has counted nothing.
    pub fn new(config: Config) -> (dumper: Asn1Dumper)
        ensures
            dumper.config == config,
            dumper.no_errors == 0,
            dumper.no_warnings == 0,
            dumper.f_pos == 0,
    {
        Asn1Dumper { config, no_errors: 0, no_warnings: 0, f_pos: 0 }
    }

    /// The number of errors counted so far.
    pub fn error_count(&self) -> (n: usize)
        ensures
            n == self.no_errors,
    {
        self.no_errors
    }

    /// The number of warnings counted so far.
    pub fn warning_count(&self) -> (n: usize)
        ensures
            n == self.no_warnings,
    {
        self.no_warnings
    }

    /// The offset of the next byte to read.
    pub fn position(&self) -> (pos: usize)
        ensures
            pos == self.f_pos,
    {
        self.f_pos
    }

    /// The name of a tag number of the universal class; `"Unknown"` for a
    /// number without one.
    pub fn tag_name(&self, tag: u32) -> (name: &'static str)
        ensures
            name@ == universal_name(tag),
    {
        if tag == EOC {
            "End-of-contents octets"
        } else if tag == BOOLEAN {
            "BOOLEAN"
        } else if tag == INTEGER {
            "INTEGER"
        } else if tag == BITSTRING {
            "BIT STRING"
        } else if tag == OCTETSTRING {
            "OCTET STRING"
        } else if tag == NULLTAG {
            "NULL"
        } else if tag == OID {
            "OBJECT IDENTIFIER"
        } else if tag == OBJDESCRIPTOR {
            "ObjectDescriptor"
        } else if tag == EXTERNAL {
            "EXTERNAL"
        } else if tag == REAL {
            "REAL"
        } else if tag == ENUMERATED {
            "ENUMERATED"
        } else if tag == EMBEDDED_PDV {
            "EMBEDDED PDV"
        } else if tag == UTF8STRING {
            "UTF8String"
        } else if tag == SEQUENCE {
            "SEQUENCE"
        } else if tag == SET {
            "SET"
        } else if tag == NUMERICSTRING {
            "NumericString"
        } else if tag == PRINTABLESTRING {
            "PrintableString"
        } else if tag == T61STRING {
            "TeletexString"
        } else if tag == VIDEOTEXSTRING {
            "VideotexString"
        } else if tag == IA5STRING {
            "IA5String"
        } else if tag == UTCTIME {
            "UTCTime"
        } else if tag == GENERALIZEDTIME {
            "GeneralizedTime"
        } else if tag == GRAPHICSTRING {
            "GraphicString"
        } else if tag == VISIBLESTRING {
            "VisibleString"
        } else if tag == GENERALSTRING {
            "GeneralString"
        } else if tag == UNIVERSALSTRING {
            "UniversalString"
        } else if tag == BMPSTRING {
            "BMPString"
        } else {
            "Unknown"
        }
    }

    /// Reads the header at the current position and moves past it.
    ///
    /// `Ok(None)` says that the input is used up. On failure the position
    /// stays where it was.
    pub fn get_item(&mut self, input: &[u8]) -> (r: Result<Option<Asn1Item>, DecodeError>)
        ensures
            final(self).config == old(self).config,
            final(self).no_errors == old(self).no_errors,
            final(self).no_warnings == old(self).no_warnings,
            match r {
                Ok(Some(item)) => item.wf() && parse_header(
                    input@,
                    old(self).f_pos as int,
                    input@.len() as int,
                ) == Ok::<Option<Asn1ItemView>, DecodeError>(Some(item@)) && final(self).f_pos
                    == old(self).f_pos + item@.header.len(),
                Ok(None) => old(self).f_pos >= input@.len() && final(self).f_pos == old(self).f_pos,
                Err(e) => parse_header(input@, old(self).f_pos as int, input@.len() as int)
                    == Err::<Option<Asn1ItemView>, DecodeError>(e) && final(self).f_pos == old(self).f_pos,
            },
    {
        if self.f_pos >= input.len() {
            return Ok(None);
        }
        match read_header(input, self.f_pos, input.len()) {
            Err(e) => Err(e),
            Ok(None) => Ok(None),
            Ok(Some(item)) => {
                self.f_pos = self.f_pos + item.header_size;
                Ok(Some(item))
            },
        }
    }

    /// Decodes the outermost unit at the current position, moves past it
    /// and counts what went wrong in it.
    ///
    /// `Ok(None)` says that the input is used up. A unit that decodes adds
    /// its errors and warnings to the counts. A failure adds one error and
    /// leaves the position at the read that failed.
    pub fn read_unit(&mut self, input: &[u8]) -> (r: Result<Option<Asn1Unit>, DecodeError>)
        ensures
            final(self).config == old(self).config,
            unit_outcome((r, final(self).f_pos)) == unit_at(
                input@,
                old(self).f_pos as int,
                input@.len() as int,
                0,
                old(self).config,
            ),
            match r {
                Ok(Some(u)) => u.wf() && exact(u.view(), 0, old(self).config) && old(self).f_pos
                    < final(self).f_pos <= input@.len() && final(self).no_errors == capped(
                    old(self).no_errors + value_errors(u.view().value),
                ) && final(self).no_warnings == capped(
                    old(self).no_warnings + header_warnings(u.view().header, old(self).config)
                        + value_warnings(u.view().value, old(self).config),
                ),
                Ok(None) => final(self).no_errors == old(self).no_errors && final(self).no_warnings == old(self).no_warnings,
                Err(_) => final(self).no_errors == capped(old(self).no_errors + 1) && final(self).no_warnings == old(self).no_warnings,
            },
    {
        if self.f_pos > input.len() {
            return Ok(None);
        }
        proof {
            law_units_are_exact(input@, self.f_pos as int, input@.len() as int, 0, self.config);
        }
        let (r, p) = decode_unit(input, self.f_pos, input.len(), 0, &self.config);
        self.f_pos = p;
        match r {
            Err(e) => {
                self.no_errors = self.no_errors.saturating_add(1);
                Err(e)
            },
            Ok(None) => Ok(None),
            Ok(Some(unit)) => {
                let (e, w) = tally_value(&unit.value, &self.config);
                self.no_errors = self.no_errors.saturating_add(e);
                self.no_warnings = self.no_warnings.saturating_add(w);
                if self.config.warn_non_canonical && unit.header.non_canonical {
                    self.no_warnings = self.no_warnings.saturating_add(1);
                }
                Ok(Some(unit))
            },
        }
    }

    /// Decodes the input from the current position to its end, or to the
    /// first failure, and counts what went wrong.
    pub fn dump_asn1(&mut self, input: &[u8]) -> (dump: Asn1Dump)
        ensures
            final(self).config == old(self).config,
            ({
                let d = dump_at(input@, old(self).f_pos as int, old(self).config, Seq::empty());
                &&& units_view(dump.units@) == d.units
                &&& dump.failure == d.failure
                &&& final(self).f_pos == d.end
                &&& final(self).no_errors == capped(old(self).no_errors + dump_errors(d))
                &&& final(self).no_warnings == capped(
                    old(self).no_warnings + units_warnings(d.units, old(self).config),
                )
            }),
            all_wf(dump.units@),
            old(self).f_pos <= input@.len() ==> {
                let units = units_view(dump.units@);
                let from = old(self).f_pos as int;
                &&& all_exact(units, 0, old(self).config)
                &&& contiguous(units, from, run_end(units, from))
                &&& run_end(units, from) <= final(self).f_pos <= input@.len()
                &&& dump.failure is None ==> run_end(units, from) == input@.len()
            },
    {
        let mut units: Vec<Asn1Unit> = Vec::new();
        let ghost cfg = self.config;
        assert(units_view(units@) =~= Seq::<Asn1UnitView>::empty());
        loop
            invariant
                self.config == cfg,
                all_wf(units@),
                cfg == old(self).config,
                dump_at(input@, old(self).f_pos as int, cfg, Seq::empty()) == dump_at(
                    input@,
                    self.f_pos as int,
                    cfg,
                    units_view(units@),
                ),
                self.no_errors == capped(
                    old(self).no_errors + units_errors(units_view(units@)),
                ),
                self.no_warnings == capped(
                    old(self).no_warnings + units_warnings(units_view(units@), cfg),
                ),
            decreases input@.len() - self.f_pos,
        {
            let ghost before = units_view(units@);
            proof {
                if old(self).f_pos <= input@.len() {
                    law_dump_is_exact(
                        input@,
                        old(self).f_pos as int,
                        cfg,
                        Seq::empty(),
                        old(self).f_pos as int,
                    );
                }
            }
            match self.read_unit(input) {
                Err(e) => {
                    return Asn1Dump { units, failure: Some(e) };
                },
                Ok(None) => {
                    return Asn1Dump { units, failure: None };
                },
                Ok(Some(unit)) => {
                    units.push(unit);
                    proof {
                        assert(units_view(units@) =~= before.push(unit.view()));
                        lemma_tally_push(before, unit.view(), cfg);
                    }
                },
            }
        }
    }
}

} // verus!
