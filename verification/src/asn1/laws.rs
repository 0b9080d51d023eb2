//! What holds of every decoding: positions move forward and stay inside
//! their window, a payload of declared length is consumed to the byte, nested
//! units fill their container, an indefinite run ends at its marker or fails,
//! the nesting limit cuts without failing, and nothing outside the window is
//! read.

use crate::asn1::config::Config;
use crate::asn1::decode::{declared, unit_at, units_at, value_at};
use crate::asn1::dumper::{dump_at, value_errors};
use crate::asn1::tags::UTF8STRING;
use crate::asn1::header::{
    parse_header, parse_length, parse_long_tag, parse_tag, Asn1ItemView,
};
use crate::asn1::value::{Asn1UnitView, Asn1ValueView};
use crate::error::DecodeError;
use vstd::prelude::*;
use vstd::utf8::valid_utf8;

verus! {

/// The bytes that a unit was read from: header and payload.
pub open spec fn span(u: Asn1UnitView) -> int {
    u.end - u.offset
}

/// The sum of the spans of a run of units.
pub open spec fn span_sum(units: Seq<Asn1UnitView>) -> int
    decreases units.len(),
{
    if units.len() == 0 {
        0
    } else {
        span_sum(units.drop_last()) + span(units.last())
    }
}

/// The units lie one after the other from `from` to `to`, with no byte
/// between them and none shared: the first starts at `from`, each starts where
/// the one before it ends, and the last ends at `to`.
pub open spec fn contiguous(units: Seq<Asn1UnitView>, from: int, to: int) -> bool
    decreases units.len(),
{
    if units.len() == 0 {
        from == to
    } else {
        &&& units.last().end == to
        &&& units.last().offset < units.last().end
        &&& contiguous(units.drop_last(), from, units.last().offset as int)
    }
}

/// A multi-byte tag number ends inside the window, at most four bytes on.
proof fn lemma_long_tag_bounds(s: Seq<u8>, pos: int, limit: int, acc: nat, count: nat)
    requires
        0 <= pos <= limit,
        count <= 4,
    ensures
        parse_long_tag(s, pos, limit, acc, count) matches Ok(t) ==> pos < t.next <= limit && t.next
            <= pos + 4 - count,
    decreases 4 - count,
{
    if count < 4 && pos < limit && s[pos] >= 128 {
        lemma_long_tag_bounds(s, pos + 1, limit, acc * 128 + (s[pos] % 128) as nat, count + 1);
    }
}

/// A header that is read takes at least two bytes and at most ten, and ends
/// inside the window.
pub proof fn lemma_header_bounds(s: Seq<u8>, pos: int, limit: int)
    requires
        0 <= pos <= limit <= s.len(),
    ensures
        parse_header(s, pos, limit) matches Ok(Some(h)) ==> 2 <= h.header.len() <= 10 && pos
            + h.header.len() <= limit,
        parse_header(s, pos, limit) matches Ok(None) ==> pos == limit,
{
    if pos < limit {
        if s[pos] % 32 == 31 {
            lemma_long_tag_bounds(s, pos + 1, limit, 0, 0);
        }
    }
}

/// Decoding a value moves forward and stays inside the window, and a value
/// of declared length ends exactly where its header says.
pub proof fn lemma_value_bounds(
    s: Seq<u8>,
    h: Asn1ItemView,
    pos: int,
    limit: int,
    depth: nat,
    cfg: Config,
)
    requires
        0 <= pos <= limit <= s.len(),
    ensures
        pos <= value_at(s, h, pos, limit, depth, cfg).1 <= limit,
        !h.indefinite && value_at(s, h, pos, limit, depth, cfg).0 is Ok ==> value_at(
            s,
            h,
            pos,
            limit,
            depth,
            cfg,
        ).1 == pos + h.length,
        !h.indefinite ==> (value_at(s, h, pos, limit, depth, cfg).0 == Err::<
            Asn1ValueView,
            DecodeError,
        >(DecodeError::Truncated) <==> pos + h.length > limit),
    decreases limit - pos, cfg.limited(), 1int,
{
    if !h.indefinite && pos + h.length > limit {
    } else if cfg.cuts_off(depth) {
        if h.indefinite {
            lemma_value_bounds(s, h, pos, limit, depth, cfg.unlimited());
        }
    } else if h.constructed() {
        if h.indefinite {
            lemma_units_bounds(s, pos, limit, depth + 1, cfg, true, Seq::empty());
        } else {
            lemma_units_bounds(s, pos, pos + h.length, depth + 1, cfg, false, Seq::empty());
        }
    }
}

/// Decoding a run of units moves forward and stays inside the window, and a
/// run that is to fill its window ends exactly at the end of it.
pub proof fn lemma_units_bounds(
    s: Seq<u8>,
    pos: int,
    limit: int,
    depth: nat,
    cfg: Config,
    until_end: bool,
    acc: Seq<Asn1UnitView>,
)
    requires
        0 <= pos <= limit <= s.len(),
    ensures
        pos <= units_at(s, pos, limit, depth, cfg, until_end, acc).1 <= limit,
        !until_end && units_at(s, pos, limit, depth, cfg, until_end, acc).0 is Ok ==> units_at(
            s,
            pos,
            limit,
            depth,
            cfg,
            until_end,
            acc,
        ).1 == limit,
    decreases limit - pos, cfg.limited(), 0int,
{
    lemma_header_bounds(s, pos, limit);
    match parse_header(s, pos, limit) {
        Ok(Some(h)) => {
            let start = pos + h.header.len();
            if until_end && h.is_end_of_contents() {
            } else {
                lemma_value_bounds(s, h, start, limit, depth, cfg);
                let (r, p) = value_at(s, h, start, limit, depth, cfg);
                match r {
                    Ok(value) => {
                        lemma_units_bounds(
                            s,
                            p,
                            limit,
                            depth,
                            cfg,
                            until_end,
                            acc.push(
                                Asn1UnitView { offset: pos as nat, header: h, value, end: p as nat },
                            ),
                        );
                    },
                    Err(_) => {},
                }
            }
        },
        _ => {},
    }
}

/// Units that lie one after the other take, together, the bytes from the
/// start of the first to the end of the last.
pub proof fn lemma_contiguous_sum(units: Seq<Asn1UnitView>, from: int, to: int)
    requires
        contiguous(units, from, to),
    ensures
        span_sum(units) == to - from,
    decreases units.len(),
{
    if units.len() > 0 {
        lemma_contiguous_sum(units.drop_last(), from, units.last().offset as int);
    }
}

/// Exact consumption. Where a header declares a length and the value of its
/// unit decodes, decoding ends exactly that many bytes after the header.
/// Where the value does not decode, the position stays inside the window,
/// and the failure is `Truncated` exactly where the window is shorter than
/// the declared length: a unit that fits its window and holds a nested unit
/// that does not fit fails otherwise, with `ChildOverrunsParent` where the
/// nested unit runs out of bytes.
pub proof fn law_definite_length_is_exact(
    s: Seq<u8>,
    h: Asn1ItemView,
    pos: int,
    limit: int,
    depth: nat,
    cfg: Config,
)
    requires
        0 <= pos <= limit <= s.len(),
        !h.indefinite,
    ensures
        match value_at(s, h, pos, limit, depth, cfg) {
            (Ok(_), p) => p == pos + h.length,
            (Err(e), p) => pos <= p <= limit && (e == DecodeError::Truncated <==> pos + h.length
                > limit),
        },
{
    lemma_value_bounds(s, h, pos, limit, depth, cfg);
}

/// Containers are filled. The units nested in a constructed unit of
/// declared length lie one after the other from the end of its header to the
/// end of its payload, and their spans, each a header and a payload, add up
/// to the declared length.
pub proof fn law_children_fill_parent(
    s: Seq<u8>,
    h: Asn1ItemView,
    pos: int,
    limit: int,
    depth: nat,
    cfg: Config,
)
    requires
        0 <= pos <= limit <= s.len(),
        !h.indefinite,
    ensures
        value_at(s, h, pos, limit, depth, cfg).0 matches Ok(Asn1ValueView::Constructed(units))
            ==> contiguous(units, pos, pos + h.length) && span_sum(units) == h.length,
{
    if pos + h.length <= limit && !cfg.cuts_off(depth) && h.constructed() {
        let end = pos + h.length;
        lemma_units_bounds(s, pos, end, depth + 1, cfg, false, Seq::empty());
        lemma_units_exact(s, pos, end, depth + 1, cfg, false, Seq::empty(), pos);
        match units_at(s, pos, end, depth + 1, cfg, false, Seq::empty()).0 {
            Ok(units) => {
                lemma_contiguous_sum(units, pos, end);
            },
            Err(_) => {},
        }
    }
}

/// An end-of-contents marker ends just before `p`.
pub open spec fn marker_ends_at(s: Seq<u8>, from: int, limit: int, p: int) -> bool {
    exists|q: int|
        from <= q < p && (#[trigger] parse_header(s, q, limit) matches Ok(Some(h))
            && h.is_end_of_contents() && q + h.header.len() == p)
}

/// Indefinite runs end. A run of units that is to end at an end-of-contents
/// marker decodes only where a marker is read, and ends just past it; where
/// the window ends in place of a unit the run is `Truncated`. However many
/// units come before, no run goes on for ever: each unit takes at least two
/// bytes of a finite window.
pub proof fn law_indefinite_run_needs_marker(
    s: Seq<u8>,
    pos: int,
    limit: int,
    depth: nat,
    cfg: Config,
    acc: Seq<Asn1UnitView>,
)
    requires
        0 <= pos <= limit <= s.len(),
    ensures
        units_at(s, pos, limit, depth, cfg, true, acc).0 is Ok ==> marker_ends_at(
            s,
            pos,
            limit,
            units_at(s, pos, limit, depth, cfg, true, acc).1,
        ),
        pos == limit ==> units_at(s, pos, limit, depth, cfg, true, acc) == (
            Err::<Seq<Asn1UnitView>, DecodeError>(DecodeError::Truncated),
            pos,
        ),
    decreases limit - pos,
{
    lemma_header_bounds(s, pos, limit);
    match parse_header(s, pos, limit) {
        Ok(Some(h)) => {
            let start = pos + h.header.len();
            if h.is_end_of_contents() {
                assert(parse_header(s, pos, limit) matches Ok(Some(h2)) && h2.is_end_of_contents()
                    && pos + h2.header.len() == start);
            } else {
                lemma_value_bounds(s, h, start, limit, depth, cfg);
                let (r, p) = value_at(s, h, start, limit, depth, cfg);
                match r {
                    Ok(value) => {
                        let next = acc.push(
                            Asn1UnitView { offset: pos as nat, header: h, value, end: p as nat },
                        );
                        law_indefinite_run_needs_marker(s, p, limit, depth, cfg, next);
                        let end = units_at(s, p, limit, depth, cfg, true, next).1;
                        if units_at(s, p, limit, depth, cfg, true, next).0 is Ok {
                            let q = choose|q: int|
                                p <= q < end && (#[trigger] parse_header(s, q, limit) matches Ok(
                                    Some(h2),
                                ) && h2.is_end_of_contents() && q + h2.header.len() == end);
                            assert(pos <= q < end && (parse_header(s, q, limit) matches Ok(
                                Some(h2),
                            ) && h2.is_end_of_contents() && q + h2.header.len() == end));
                        }
                    },
                    Err(_) => {},
                }
            }
        },
        _ => {},
    }
}

/// What a run makes of the units it began with: it puts them before its
/// own.
pub open spec fn after(
    acc: Seq<Asn1UnitView>,
    run: (Result<Seq<Asn1UnitView>, DecodeError>, int),
) -> (Result<Seq<Asn1UnitView>, DecodeError>, int) {
    (
        match run.0 {
            Ok(units) => Ok(acc + units),
            Err(e) => Err(e),
        },
        run.1,
    )
}

/// Runs only append. The units that a run began with come first in what it
/// gives, unchanged, and have no say in what follows them.
pub proof fn law_run_keeps_its_start(
    s: Seq<u8>,
    pos: int,
    limit: int,
    depth: nat,
    cfg: Config,
    until_end: bool,
    acc: Seq<Asn1UnitView>,
)
    ensures
        units_at(s, pos, limit, depth, cfg, until_end, acc) == after(
            acc,
            units_at(s, pos, limit, depth, cfg, until_end, Seq::empty()),
        ),
    decreases limit - pos,
{
    let empty = Seq::<Asn1UnitView>::empty();
    assert(acc + empty =~= acc);
    match parse_header(s, pos, limit) {
        Ok(Some(h)) => {
            let start = pos + h.header.len();
            if !(pos < start <= limit) {
            } else if until_end && h.is_end_of_contents() {
            } else {
                let (r, p) = value_at(s, h, start, limit, depth, cfg);
                match r {
                    Ok(value) => {
                        if start <= p <= limit {
                            let unit = Asn1UnitView {
                                offset: pos as nat,
                                header: h,
                                value,
                                end: p as nat,
                            };
                            law_run_keeps_its_start(
                                s,
                                p,
                                limit,
                                depth,
                                cfg,
                                until_end,
                                acc.push(unit),
                            );
                            law_run_keeps_its_start(
                                s,
                                p,
                                limit,
                                depth,
                                cfg,
                                until_end,
                                empty.push(unit),
                            );
                            match units_at(s, p, limit, depth, cfg, until_end, empty).0 {
                                Ok(rest) => {
                                    assert(acc.push(unit) + rest =~= acc + (empty.push(unit)
                                        + rest));
                                },
                                Err(_) => {},
                            }
                        }
                    },
                    Err(_) => {},
                }
            }
        },
        _ => {},
    }
}

/// No unit of the run from index `from` on is an end-of-contents marker.
pub open spec fn marker_free(units: Seq<Asn1UnitView>, from: int) -> bool {
    forall|i: int| from <= i < units.len() ==> !(#[trigger] units[i]).header.is_end_of_contents()
}

/// A run without a marker is cut short. Where the bytes up to the end of
/// the window decode as units that fill it, and none of those units is an
/// end-of-contents marker, the same bytes read as a run that is to end at a
/// marker are `Truncated`, at the end of the window.
pub proof fn law_run_without_marker_is_truncated(
    s: Seq<u8>,
    pos: int,
    limit: int,
    depth: nat,
    cfg: Config,
    filled: Seq<Asn1UnitView>,
    acc: Seq<Asn1UnitView>,
)
    requires
        0 <= pos <= limit <= s.len(),
        units_at(s, pos, limit, depth, cfg, false, filled).0 matches Ok(units) && marker_free(
            units,
            filled.len() as int,
        ),
    ensures
        units_at(s, pos, limit, depth, cfg, true, acc) == (
            Err::<Seq<Asn1UnitView>, DecodeError>(DecodeError::Truncated),
            limit,
        ),
    decreases limit - pos,
{
    lemma_header_bounds(s, pos, limit);
    match parse_header(s, pos, limit) {
        Ok(Some(h)) => {
            let start = pos + h.header.len();
            lemma_value_bounds(s, h, start, limit, depth, cfg);
            let (r, p) = value_at(s, h, start, limit, depth, cfg);
            match r {
                Ok(value) => {
                    let unit = Asn1UnitView { offset: pos as nat, header: h, value, end: p as nat };
                    law_run_keeps_its_start(s, p, limit, depth, cfg, false, filled.push(unit));
                    let units = units_at(s, pos, limit, depth, cfg, false, filled).0->Ok_0;
                    assert(units[filled.len() as int] == unit);
                    law_run_without_marker_is_truncated(
                        s,
                        p,
                        limit,
                        depth,
                        cfg,
                        filled.push(unit),
                        acc.push(unit),
                    );
                },
                Err(_) => {},
            }
        },
        _ => {},
    }
}

/// Two inputs hold the same bytes from `from` up to `to`.
pub open spec fn same_between(a: Seq<u8>, b: Seq<u8>, from: int, to: int) -> bool {
    &&& 0 <= from <= to <= a.len()
    &&& to <= b.len()
    &&& forall|i: int| from <= i < to ==> a[i] == b[i]
}

/// A multi-byte tag number is read from the window alone.
proof fn lemma_long_tag_reads_its_window(
    a: Seq<u8>,
    b: Seq<u8>,
    pos: int,
    limit: int,
    acc: nat,
    count: nat,
    from: int,
)
    requires
        same_between(a, b, from, limit),
        from <= pos,
    ensures
        parse_long_tag(a, pos, limit, acc, count) == parse_long_tag(b, pos, limit, acc, count),
    decreases 4 - count,
{
    if count < 4 && pos < limit && a[pos] >= 128 {
        lemma_long_tag_reads_its_window(
            a,
            b,
            pos + 1,
            limit,
            acc * 128 + (a[pos] % 128) as nat,
            count + 1,
            from,
        );
    }
}

/// Headers read their window alone. A header is the same in any two inputs
/// that hold the same bytes from its start to the end of the window.
pub proof fn law_header_reads_its_window(a: Seq<u8>, b: Seq<u8>, pos: int, limit: int)
    requires
        same_between(a, b, pos, limit),
    ensures
        parse_header(a, pos, limit) == parse_header(b, pos, limit),
{
    if pos < limit {
        lemma_long_tag_reads_its_window(a, b, pos + 1, limit, 0, 0, pos);
        lemma_long_tag_bounds(a, pos + 1, limit, 0, 0);
        match parse_tag(a, pos, limit) {
            Ok(t) => {
                if t.next < limit && a[t.next] > 128 && a[t.next] - 128 <= 4 && t.next + 1
                    + (a[t.next] - 128) <= limit {
                    let k = a[t.next] - 128;
                    assert(a.subrange(t.next + 1, t.next + 1 + k) =~= b.subrange(
                        t.next + 1,
                        t.next + 1 + k,
                    ));
                }
                match parse_length(a, t.next, limit) {
                    Ok(l) => {
                        assert(a.subrange(pos, l.next) =~= b.subrange(pos, l.next));
                    },
                    Err(_) => {},
                }
            },
            Err(_) => {},
        }
    }
}

/// Decoding reads its window alone. The value of a unit is the same in
/// any two inputs that hold the same bytes from the start of its payload to
/// the end of the window: no byte before, and none at or past `limit`, has a
/// say in it.
pub proof fn law_value_reads_its_window(
    a: Seq<u8>,
    b: Seq<u8>,
    h: Asn1ItemView,
    pos: int,
    limit: int,
    depth: nat,
    cfg: Config,
)
    requires
        same_between(a, b, pos, limit),
    ensures
        value_at(a, h, pos, limit, depth, cfg) == value_at(b, h, pos, limit, depth, cfg),
    decreases limit - pos, cfg.limited(), 1int,
{
    if !h.indefinite && pos + h.length > limit {
    } else if cfg.cuts_off(depth) {
        if h.indefinite {
            law_value_reads_its_window(a, b, h, pos, limit, depth, cfg.unlimited());
        }
    } else if h.constructed() {
        if h.indefinite {
            law_units_read_their_window(a, b, pos, limit, depth + 1, cfg, true, Seq::empty());
        } else {
            law_units_read_their_window(
                a,
                b,
                pos,
                pos + h.length,
                depth + 1,
                cfg,
                false,
                Seq::empty(),
            );
        }
    } else {
        assert(a.subrange(pos, pos + declared(h)) =~= b.subrange(pos, pos + declared(h)));
    }
}

/// A run of units is the same in any two inputs that hold the same bytes
/// from where the run starts to the end of the window.
pub proof fn law_units_read_their_window(
    a: Seq<u8>,
    b: Seq<u8>,
    pos: int,
    limit: int,
    depth: nat,
    cfg: Config,
    until_end: bool,
    acc: Seq<Asn1UnitView>,
)
    requires
        same_between(a, b, pos, limit),
    ensures
        units_at(a, pos, limit, depth, cfg, until_end, acc) == units_at(
            b,
            pos,
            limit,
            depth,
            cfg,
            until_end,
            acc,
        ),
    decreases limit - pos, cfg.limited(), 0int,
{
    law_header_reads_its_window(a, b, pos, limit);
    lemma_header_bounds(a, pos, limit);
    match parse_header(a, pos, limit) {
        Ok(Some(h)) => {
            let start = pos + h.header.len();
            if until_end && h.is_end_of_contents() {
            } else {
                law_value_reads_its_window(a, b, h, start, limit, depth, cfg);
                lemma_value_bounds(a, h, start, limit, depth, cfg);
                let (r, p) = value_at(a, h, start, limit, depth, cfg);
                match r {
                    Ok(value) => {
                        law_units_read_their_window(
                            a,
                            b,
                            p,
                            limit,
                            depth,
                            cfg,
                            until_end,
                            acc.push(
                                Asn1UnitView { offset: pos as nat, header: h, value, end: p as nat },
                            ),
                        );
                    },
                    Err(_) => {},
                }
            }
        },
        _ => {},
    }
}

/// The nesting limit cuts without failing. A unit below the deepest level
/// that is decoded, whose value would decode if there were no limit, decodes
/// to `NestingExceeded` and ends where the unit ends: decoding goes on at the
/// position at which it would go on without the limit. None of the units
/// nested in it is kept.
pub proof fn law_nesting_limit_cuts(
    s: Seq<u8>,
    h: Asn1ItemView,
    pos: int,
    limit: int,
    depth: nat,
    cfg: Config,
)
    requires
        0 <= pos <= limit <= s.len(),
        cfg.cuts_off(depth),
        value_at(s, h, pos, limit, depth, cfg.unlimited()).0 is Ok,
    ensures
        value_at(s, h, pos, limit, depth, cfg) == (
            Ok::<Asn1ValueView, DecodeError>(Asn1ValueView::NestingExceeded),
            value_at(s, h, pos, limit, depth, cfg.unlimited()).1,
        ),
{
    lemma_value_bounds(s, h, pos, limit, depth, cfg.unlimited());
}

/// A cut unit of declared length is passed over. A unit below the deepest
/// level that is decoded, whose header declares a length that lies inside the
/// window, decodes to `NestingExceeded` whatever its payload holds, and
/// decoding goes on just past that payload.
pub proof fn law_cut_unit_is_passed_over(
    s: Seq<u8>,
    h: Asn1ItemView,
    pos: int,
    limit: int,
    depth: nat,
    cfg: Config,
)
    requires
        cfg.cuts_off(depth),
        !h.indefinite,
        pos + h.length <= limit,
    ensures
        value_at(s, h, pos, limit, depth, cfg) == (
            Ok::<Asn1ValueView, DecodeError>(Asn1ValueView::NestingExceeded),
            pos + h.length,
        ),
{
}

/// Malformed text is counted, not fatal. A UTF8String whose payload lies
/// inside the window and is not well-formed UTF-8 decodes, to `InvalidUtf8`
/// with its bytes; decoding goes on just past it, and the value counts for one
/// error.
pub proof fn law_malformed_text_is_not_fatal(
    s: Seq<u8>,
    h: Asn1ItemView,
    pos: int,
    limit: int,
    depth: nat,
    cfg: Config,
)
    requires
        0 <= pos,
        pos + declared(h) <= limit <= s.len(),
        !cfg.cuts_off(depth),
        h.id == 0,
        h.tag == UTF8STRING,
        !valid_utf8(s.subrange(pos, pos + declared(h))),
    ensures
        value_at(s, h, pos, limit, depth, cfg) == (
            Ok::<Asn1ValueView, DecodeError>(
                Asn1ValueView::InvalidUtf8(s.subrange(pos, pos + declared(h))),
            ),
            pos + declared(h),
        ),
        value_errors(Asn1ValueView::InvalidUtf8(s.subrange(pos, pos + declared(h)))) == 1,
{
}

/// Where a run of units ends that started at `from`: at the end of its last
/// unit.
pub open spec fn run_end(units: Seq<Asn1UnitView>, from: int) -> int {
    if units.len() == 0 {
        from
    } else {
        units.last().end as int
    }
}

/// The unit, read at nesting level `depth`, and every unit nested in it are
/// exactly placed:
///
/// * the header takes at least two bytes and the unit ends no earlier than
///   its header;
/// * a unit of declared length ends exactly that many bytes after its
///   header;
/// * below the deepest level that is decoded stands `NestingExceeded` and
///   nothing else;
/// * the units nested in a constructed unit lie one after the other from the
///   end of its header, up to the end of the unit where its length is
///   declared, and up to the end-of-contents marker, which takes at least two
///   bytes more, where it is not.
pub open spec fn exact(u: Asn1UnitView, depth: nat, cfg: Config) -> bool
    decreases u,
{
    let body = (u.offset + u.header.header.len()) as int;
    &&& u.header.header.len() >= 2
    &&& body <= u.end
    &&& (!u.header.indefinite ==> u.end == body + u.header.length)
    &&& (cfg.cuts_off(depth) ==> u.value is NestingExceeded)
    &&& match u.value {
        Asn1ValueView::Constructed(units) => {
            &&& forall|i: int|
                0 <= i < units.len() ==> exact(#[trigger] units[i], depth + 1, cfg)
            &&& contiguous(units, body, run_end(units, body))
            &&& if u.header.indefinite {
                run_end(units, body) + 2 <= u.end
            } else {
                run_end(units, body) == u.end
            }
        },
        _ => true,
    }
}

/// Every unit of the run is exactly placed at nesting level `depth`.
pub open spec fn all_exact(units: Seq<Asn1UnitView>, depth: nat, cfg: Config) -> bool {
    forall|i: int| 0 <= i < units.len() ==> exact(#[trigger] units[i], depth, cfg)
}

/// A run that lies one after the other ends at the end of its last unit.
proof fn lemma_contiguous_run_end(units: Seq<Asn1UnitView>, from: int, to: int)
    requires
        contiguous(units, from, to),
    ensures
        run_end(units, from) == to,
{
}

/// The value of a unit that decodes makes an exactly placed unit.
proof fn lemma_value_exact(
    s: Seq<u8>,
    offset: int,
    h: Asn1ItemView,
    pos: int,
    limit: int,
    depth: nat,
    cfg: Config,
)
    requires
        0 <= offset,
        offset + 2 <= pos <= limit <= s.len(),
        pos == offset + h.header.len(),
    ensures
        value_at(s, h, pos, limit, depth, cfg).0 matches Ok(value) ==> exact(
            Asn1UnitView {
                offset: offset as nat,
                header: h,
                value,
                end: value_at(s, h, pos, limit, depth, cfg).1 as nat,
            },
            depth,
            cfg,
        ),
    decreases limit - pos, 1int,
{
    lemma_value_bounds(s, h, pos, limit, depth, cfg);
    if !h.indefinite && pos + h.length > limit {
    } else if cfg.cuts_off(depth) {
    } else if h.constructed() {
        let window = if h.indefinite {
            limit
        } else {
            pos + h.length
        };
        lemma_units_exact(s, pos, window, depth + 1, cfg, h.indefinite, Seq::empty(), pos);
    }
}

/// A run of units that decodes is exactly placed and lies one after the
/// other from where the run began; a run that ends at a marker ends at least
/// two bytes before the position that follows it.
proof fn lemma_units_exact(
    s: Seq<u8>,
    pos: int,
    limit: int,
    depth: nat,
    cfg: Config,
    until_end: bool,
    acc: Seq<Asn1UnitView>,
    from: int,
)
    requires
        0 <= pos <= limit <= s.len(),
        all_exact(acc, depth, cfg),
        contiguous(acc, from, pos),
    ensures
        units_at(s, pos, limit, depth, cfg, until_end, acc).0 matches Ok(units) ==> {
            let p = units_at(s, pos, limit, depth, cfg, until_end, acc).1;
            &&& all_exact(units, depth, cfg)
            &&& contiguous(units, from, run_end(units, from))
            &&& if until_end {
                run_end(units, from) + 2 <= p
            } else {
                run_end(units, from) == p
            }
        },
    decreases limit - pos, 0int,
{
    lemma_header_bounds(s, pos, limit);
    lemma_contiguous_run_end(acc, from, pos);
    match parse_header(s, pos, limit) {
        Ok(Some(h)) => {
            let start = pos + h.header.len();
            if until_end && h.is_end_of_contents() {
            } else {
                lemma_value_bounds(s, h, start, limit, depth, cfg);
                lemma_value_exact(s, pos, h, start, limit, depth, cfg);
                let (r, p) = value_at(s, h, start, limit, depth, cfg);
                match r {
                    Ok(value) => {
                        let unit = Asn1UnitView {
                            offset: pos as nat,
                            header: h,
                            value,
                            end: p as nat,
                        };
                        let next = acc.push(unit);
                        assert(next.drop_last() =~= acc);
                        assert(next.last() == unit);
                        assert(all_exact(next, depth, cfg)) by {
                            assert forall|i: int| 0 <= i < next.len() implies exact(
                                #[trigger] next[i],
                                depth,
                                cfg,
                            ) by {
                                if i < acc.len() {
                                    assert(next[i] == acc[i]);
                                }
                            }
                        }
                        lemma_units_exact(s, p, limit, depth, cfg, until_end, next, from);
                    },
                    Err(_) => {},
                }
            }
        },
        _ => {},
    }
}

/// Units are exactly placed. Every unit that decodes, at whatever level, is
/// read from the bytes its header announces: see `exact`.
pub proof fn law_units_are_exact(s: Seq<u8>, pos: int, limit: int, depth: nat, cfg: Config)
    requires
        0 <= pos <= limit <= s.len(),
    ensures
        unit_at(s, pos, limit, depth, cfg).0 matches Ok(Some(u)) ==> exact(u, depth, cfg),
{
    lemma_header_bounds(s, pos, limit);
    match parse_header(s, pos, limit) {
        Ok(Some(h)) => {
            lemma_value_exact(s, pos, h, pos + h.header.len(), limit, depth, cfg);
        },
        _ => {},
    }
}

/// Every unit moves forward. A whole unit, header and value, moves the
/// position forward by at least the two bytes of the shortest header, and
/// stays inside the window.
pub proof fn law_unit_moves_forward(s: Seq<u8>, pos: int, limit: int, depth: nat, cfg: Config)
    requires
        0 <= pos <= limit <= s.len(),
    ensures
        pos <= unit_at(s, pos, limit, depth, cfg).1 <= limit,
        unit_at(s, pos, limit, depth, cfg).0 matches Ok(Some(u)) ==> u.offset == pos && pos + 2
            <= u.offset + u.header.header.len() <= u.end == unit_at(s, pos, limit, depth, cfg).1,
{
    lemma_header_bounds(s, pos, limit);
    match parse_header(s, pos, limit) {
        Ok(Some(h)) => {
            lemma_value_bounds(s, h, pos + h.header.len(), limit, depth, cfg);
        },
        _ => {},
    }
}

/// Nothing is skipped between units. The outermost units that a whole input
/// decodes to are exactly placed and lie one after the other from where
/// decoding began; decoding stops inside the input, at or after the end of
/// the last of them; and where it stops without a failure, the units take
/// every byte up to the end of the input.
pub proof fn law_dump_is_exact(
    s: Seq<u8>,
    pos: int,
    cfg: Config,
    acc: Seq<Asn1UnitView>,
    from: int,
)
    requires
        0 <= pos <= s.len(),
        all_exact(acc, 0, cfg),
        contiguous(acc, from, pos),
    ensures
        ({
            let d = dump_at(s, pos, cfg, acc);
            &&& all_exact(d.units, 0, cfg)
            &&& contiguous(d.units, from, run_end(d.units, from))
            &&& run_end(d.units, from) <= d.end <= s.len()
            &&& d.failure is None ==> d.end == s.len() && run_end(d.units, from) == s.len()
        }),
    decreases s.len() - pos,
{
    let limit = s.len() as int;
    lemma_contiguous_run_end(acc, from, pos);
    law_unit_moves_forward(s, pos, limit, 0, cfg);
    law_units_are_exact(s, pos, limit, 0, cfg);
    match unit_at(s, pos, limit, 0, cfg) {
        (Ok(Some(u)), p) => {
            let next = acc.push(u);
            assert(next.drop_last() =~= acc);
            assert(next.last() == u);
            assert(all_exact(next, 0, cfg)) by {
                assert forall|i: int| 0 <= i < next.len() implies exact(
                    #[trigger] next[i],
                    0,
                    cfg,
                ) by {
                    if i < acc.len() {
                        assert(next[i] == acc[i]);
                    }
                }
            }
            law_dump_is_exact(s, p, cfg, next, from);
        },
        _ => {},
    }
}

} // verus!
