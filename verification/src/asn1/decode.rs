//! The recursive decoder: from a header to the value of its unit, through
//! the units nested in it.

use crate::asn1::config::Config;
use crate::asn1::header::{parse_header, read_header, Asn1Item, Asn1ItemView};
use crate::asn1::value::{
    decode_primitive, interpret, units_view, Asn1Unit, Asn1UnitView, Asn1Value, Asn1ValueView,
};
use crate::error::DecodeError;
use vstd::prelude::*;
use vstd::slice::slice_subrange;

verus! {

/// A failure as seen from a container of definite length: where a nested
/// unit finds its window too short, it overruns the container.
pub open spec fn within_parent(e: DecodeError) -> DecodeError {
    if e == DecodeError::Truncated {
        DecodeError::ChildOverrunsParent
    } else {
        e
    }
}

/// The payload bytes that a header declares: none for an indefinite length.
pub open spec fn declared(h: Asn1ItemView) -> int {
    if h.indefinite {
        0
    } else {
        h.length as int
    }
}

/// The value of the unit with header `h` whose payload starts at `pos`,
/// together with the position at which reading stopped. No byte at or past
/// `limit` is read. `depth` is the nesting level of the unit; the outermost
/// units are at level 0.
///
/// * A unit whose declared length reaches past `limit` is `Truncated`.
/// * A unit below the deepest level that is decoded is `NestingExceeded`,
///   and ends where the unit ends. Its payload is passed over unread where
///   the header declares its length. Where it does not, the payload is walked
///   as if there were no limit, to find its end, and not kept; a failure on
///   the way is the failure of the unit.
/// * A constructed unit of definite length holds the units that fill its
///   declared length exactly. A unit among them that needs more is
///   `ChildOverrunsParent`.
/// * A constructed unit of indefinite length holds the units up to the
///   end-of-contents marker, which is read and not kept.
/// * A primitive unit holds what `interpret` makes of its payload.
///
/// On failure the position is that of the read that failed.
pub open spec fn value_at(
    s: Seq<u8>,
    h: Asn1ItemView,
    pos: int,
    limit: int,
    depth: nat,
    cfg: Config,
) -> (Result<Asn1ValueView, DecodeError>, int)
    decreases limit - pos, cfg.limited(), 1int,
{
    if !h.indefinite && pos + h.length > limit {
        (Err(DecodeError::Truncated), pos)
    } else if cfg.cuts_off(depth) {
        if h.indefinite {
            not_kept(value_at(s, h, pos, limit, depth, cfg.unlimited()))
        } else {
            (Ok(Asn1ValueView::NestingExceeded), pos + h.length)
        }
    } else if h.constructed() {
        if h.indefinite {
            let (r, p) = units_at(s, pos, limit, depth + 1, cfg, true, Seq::empty());
            match r {
                Ok(units) => (Ok(Asn1ValueView::Constructed(units)), p),
                Err(e) => (Err(e), p),
            }
        } else {
            let (r, p) = units_at(s, pos, pos + h.length, depth + 1, cfg, false, Seq::empty());
            match r {
                Ok(units) => (Ok(Asn1ValueView::Constructed(units)), p),
                Err(e) => (Err(within_parent(e)), p),
            }
        }
    } else {
        (Ok(interpret(h, s.subrange(pos, pos + declared(h)), cfg)), pos + declared(h))
    }
}

/// What is left of a value that was walked to find its end and is not kept:
/// the position, and the failure if there was one.
pub open spec fn not_kept(walked: (Result<Asn1ValueView, DecodeError>, int)) -> (
    Result<Asn1ValueView, DecodeError>,
    int,
) {
    (
        match walked.0 {
            Ok(_) => Ok(Asn1ValueView::NestingExceeded),
            Err(e) => Err(e),
        },
        walked.1,
    )
}

/// The units that follow the units `acc` from `pos` on, all at nesting level
/// `depth`, with the position at which reading stopped.
///
/// With `until_end` the run ends at an end-of-contents marker, and the end
/// of the window before one is `Truncated`. Without it the run ends where
/// the window ends.
///
/// A header takes at least two bytes and a payload none or more, so every
/// unit moves the position forward; the tests on `start` and `p` say so again
/// to make the definition well-founded. Inside the input they never fail:
/// see `lemma_header_bounds` and `lemma_value_bounds`.
pub open spec fn units_at(
    s: Seq<u8>,
    pos: int,
    limit: int,
    depth: nat,
    cfg: Config,
    until_end: bool,
    acc: Seq<Asn1UnitView>,
) -> (Result<Seq<Asn1UnitView>, DecodeError>, int)
    decreases limit - pos, cfg.limited(), 0int,
{
    match parse_header(s, pos, limit) {
        Err(e) => (Err(e), pos),
        Ok(None) => if until_end {
            (Err(DecodeError::Truncated), pos)
        } else {
            (Ok(acc), pos)
        },
        Ok(Some(h)) => {
            let start = pos + h.header.len();
            if !(pos < start <= limit) {
                (Err(DecodeError::Truncated), pos)
            } else if until_end && h.is_end_of_contents() {
                (Ok(acc), start)
            } else {
                let (r, p) = value_at(s, h, start, limit, depth, cfg);
                match r {
                    Err(e) => (Err(e), p),
                    Ok(value) => if !(start <= p <= limit) {
                        (Err(DecodeError::Truncated), p)
                    } else {
                        units_at(
                            s,
                            p,
                            limit,
                            depth,
                            cfg,
                            until_end,
                            acc.push(
                                Asn1UnitView { offset: pos as nat, header: h, value, end: p as nat },
                            ),
                        )
                    },
                }
            }
        },
    }
}

/// The unit that starts at `pos`, header and value, with the position at
/// which reading stopped; `Ok(None)` where no byte is left before `limit`.
pub open spec fn unit_at(s: Seq<u8>, pos: int, limit: int, depth: nat, cfg: Config) -> (
    Result<Option<Asn1UnitView>, DecodeError>,
    int,
) {
    match parse_header(s, pos, limit) {
        Err(e) => (Err(e), pos),
        Ok(None) => (Ok(None), pos),
        Ok(Some(h)) => {
            let (r, p) = value_at(s, h, pos + h.header.len(), limit, depth, cfg);
            match r {
                Err(e) => (Err(e), p),
                Ok(value) => (
                    Ok(Some(Asn1UnitView { offset: pos as nat, header: h, value, end: p as nat })),
                    p,
                ),
            }
        },
    }
}

/// The mathematical value of what `decode_value` returns.
pub open spec fn value_outcome(r: (Result<Asn1Value, DecodeError>, usize)) -> (
    Result<Asn1ValueView, DecodeError>,
    int,
) {
    (
        match r.0 {
            Ok(v) => Ok(v.view()),
            Err(e) => Err(e),
        },
        r.1 as int,
    )
}

/// The mathematical value of what `decode_units` returns.
pub open spec fn units_outcome(r: (Result<Vec<Asn1Unit>, DecodeError>, usize)) -> (
    Result<Seq<Asn1UnitView>, DecodeError>,
    int,
) {
    (
        match r.0 {
            Ok(units) => Ok(units_view(units@)),
            Err(e) => Err(e),
        },
        r.1 as int,
    )
}

/// The mathematical value of what `decode_unit` returns.
pub open spec fn unit_outcome(r: (Result<Option<Asn1Unit>, DecodeError>, usize)) -> (
    Result<Option<Asn1UnitView>, DecodeError>,
    int,
) {
    (
        match r.0 {
            Ok(Some(u)) => Ok(Some(u.view())),
            Ok(None) => Ok(None),
            Err(e) => Err(e),
        },
        r.1 as int,
    )
}

/// Every unit of the vector records the true size of each header in it.
pub open spec fn all_wf(units: Seq<Asn1Unit>) -> bool {
    forall|i: int| 0 <= i < units.len() ==> (#[trigger] units[i]).wf()
}

/// Decodes the value of the unit with header `item`, whose payload starts at
/// `pos`, and returns it with the position at which reading stopped.
pub fn decode_value(
    input: &[u8],
    item: &Asn1Item,
    pos: usize,
    limit: usize,
    depth: usize,
    config: &Config,
) -> (r: (Result<Asn1Value, DecodeError>, usize))
    requires
        pos <= limit <= input@.len(),
        depth + (limit - pos) <= usize::MAX,
    ensures
        value_outcome(r) == value_at(
            input@,
            item@,
            pos as int,
            limit as int,
            depth as nat,
            *config,
        ),
        pos <= r.1 <= limit,
        r.0 matches Ok(v) ==> (v matches Asn1Value::Constructed(units) ==> all_wf(units@)),
    decreases limit - pos, config.limited(), 1int,
{
    let definite: bool = !item.indefinite;
    if definite && item.length as usize > limit - pos {
        return (Err(DecodeError::Truncated), pos);
    }
    let length: usize = if definite {
        item.length as usize
    } else {
        0
    };
    if config.skip_beyond_max_nest && depth > config.max_nest_level {
        if definite {
            return (Ok(Asn1Value::NestingExceeded), pos + length);
        }
        let open = config.without_limit();
        let (walked, end) = decode_value(input, item, pos, limit, depth, &open);
        return match walked {
            Ok(_) => (Ok(Asn1Value::NestingExceeded), end),
            Err(e) => (Err(e), end),
        };
    }
    if item.is_constructed() {
        if definite {
            if length == 0 {
                let units: Vec<Asn1Unit> = Vec::new();
                let value = Asn1Value::Constructed(units);
                assert(value.view()->Constructed_0 =~= Seq::<Asn1UnitView>::empty());
                assert(units_at(
                    input@,
                    pos as int,
                    pos as int,
                    (depth + 1) as nat,
                    *config,
                    false,
                    Seq::empty(),
                ) == (Ok::<Seq<Asn1UnitView>, DecodeError>(Seq::empty()), pos as int));
                return (Ok(value), pos);
            }
            let (r, p) = decode_units(input, pos, pos + length, depth + 1, config, false);
            match r {
                Ok(units) => {
                    let ghost views = units_view(units@);
                    let value = Asn1Value::Constructed(units);
                    assert(value.view()->Constructed_0 =~= views);
                    (Ok(value), p)
                },
                Err(e) => {
                    let parent_error = match e {
                        DecodeError::Truncated => DecodeError::ChildOverrunsParent,
                        other => other,
                    };
                    (Err(parent_error), p)
                },
            }
        } else {
            if pos >= limit {
                assert(units_at(
                    input@,
                    pos as int,
                    limit as int,
                    (depth + 1) as nat,
                    *config,
                    true,
                    Seq::empty(),
                ) == (Err::<Seq<Asn1UnitView>, DecodeError>(DecodeError::Truncated), pos as int));
                return (Err(DecodeError::Truncated), pos);
            }
            let (r, p) = decode_units(input, pos, limit, depth + 1, config, true);
            match r {
                Ok(units) => {
                    let ghost views = units_view(units@);
                    let value = Asn1Value::Constructed(units);
                    assert(value.view()->Constructed_0 =~= views);
                    (Ok(value), p)
                },
                Err(e) => (Err(e), p),
            }
        }
    } else {
        let payload = slice_subrange(input, pos, pos + length);
        (Ok(decode_primitive(item, payload, config)), pos + length)
    }
}

/// Decodes the run of units that starts at `pos`, all at nesting level
/// `depth`, and returns them with the position at which reading stopped.
pub fn decode_units(
    input: &[u8],
    pos: usize,
    limit: usize,
    depth: usize,
    config: &Config,
    until_end: bool,
) -> (r: (Result<Vec<Asn1Unit>, DecodeError>, usize))
    requires
        pos <= limit <= input@.len(),
        depth + (limit - pos) <= usize::MAX + 1,
    ensures
        units_outcome(r) == units_at(
            input@,
            pos as int,
            limit as int,
            depth as nat,
            *config,
            until_end,
            Seq::empty(),
        ),
        pos <= r.1 <= limit,
        r.0 matches Ok(units) ==> all_wf(units@),
    decreases limit - pos, config.limited(), 0int,
{
    let mut units: Vec<Asn1Unit> = Vec::new();
    let mut p: usize = pos;
    assert(units_view(units@) =~= Seq::<Asn1UnitView>::empty());
    loop
        invariant
            pos <= p <= limit <= input@.len(),
            depth + (limit - pos) <= usize::MAX + 1,
            all_wf(units@),
            units_at(
                input@,
                pos as int,
                limit as int,
                depth as nat,
                *config,
                until_end,
                Seq::empty(),
            ) == units_at(
                input@,
                p as int,
                limit as int,
                depth as nat,
                *config,
                until_end,
                units_view(units@),
            ),
        decreases limit - p,
    {
        match read_header(input, p, limit) {
            Err(e) => {
                return (Err(e), p);
            },
            Ok(None) => {
                if until_end {
                    return (Err(DecodeError::Truncated), p);
                } else {
                    return (Ok(units), p);
                }
            },
            Ok(Some(item)) => {
                let start: usize = p + item.header_size;
                if until_end && item.is_end_of_contents() {
                    return (Ok(units), start);
                }
                let (r, q) = decode_value(input, &item, start, limit, depth, config);
                match r {
                    Err(e) => {
                        return (Err(e), q);
                    },
                    Ok(value) => {
                        let unit = Asn1Unit { offset: p, header: item, value, end: q };
                        let ghost before = units_view(units@);
                        units.push(unit);
                        assert(units_view(units@) =~= before.push(unit.view()));
                        p = q;
                    },
                }
            },
        }
    }
}

/// Decodes the unit that starts at `pos`, header and value, and returns it
/// with the position at which reading stopped.
pub fn decode_unit(input: &[u8], pos: usize, limit: usize, depth: usize, config: &Config) -> (r: (
    Result<Option<Asn1Unit>, DecodeError>,
    usize,
))
    requires
        pos <= limit <= input@.len(),
        depth + (limit - pos) <= usize::MAX,
    ensures
        unit_outcome(r) == unit_at(input@, pos as int, limit as int, depth as nat, *config),
        pos <= r.1 <= limit,
        r.0 matches Ok(Some(u)) ==> u.wf() && pos + 2 <= r.1,
        r.0 matches Ok(None) ==> pos == limit,
{
    match read_header(input, pos, limit) {
        Err(e) => (Err(e), pos),
        Ok(None) => (Ok(None), pos),
        Ok(Some(item)) => {
            let start: usize = pos + item.header_size;
            let (r, p) = decode_value(input, &item, start, limit, depth, config);
            match r {
                Err(e) => (Err(e), p),
                Ok(value) => (Ok(Some(Asn1Unit { offset: pos, header: item, value, end: p })), p),
            }
        },
    }
}

} // verus!
