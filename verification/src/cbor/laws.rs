//! What holds of every decoding: positions move forward and stay inside the
//! input, a string of declared length is consumed to the byte, containers
//! hold what they announce, an indefinite run ends at its break marker or
//! fails, and the nesting limit cuts without failing.

use crate::cbor::config::Config;
use crate::cbor::decode::{
    chunks_at, declared, definite_string, head_error, item_at, items_at, step_at, value_at,
};
use crate::cbor::head::{
    parse_head, CborHead, AI_INDEFINITE, MAJOR_ARRAY, MAJOR_BYTES, MAJOR_MAP, MAJOR_SIMPLE,
    MAJOR_TAG, MAJOR_TEXT,
};
use crate::cbor::dumper::{dump_at, value_count, CborEntryView};
use crate::cbor::value::{paired, CborItemView, CborValueView};
use crate::error::DecodeError;
use vstd::prelude::*;
use vstd::utf8::{decode_utf8_encode_utf8, encode_utf8, valid_utf8};

verus! {

/// A head that is read takes one to nine bytes, ends inside the input and
/// has nothing wrong by itself.
pub proof fn lemma_head_bounds(s: Seq<u8>, pos: int)
    requires
        0 <= pos <= s.len(),
    ensures
        parse_head(s, pos) matches Ok(Some(h)) ==> 1 <= h.size <= 9 && pos + h.size <= s.len()
            && head_error(h) is None,
        parse_head(s, pos) matches Ok(None) ==> pos == s.len(),
{
}

/// Reading the chunks of a string moves forward and stays inside the
/// input.
pub proof fn lemma_chunks_bounds(s: Seq<u8>, pos: int, major: u8, acc: Seq<u8>)
    requires
        0 <= pos <= s.len(),
    ensures
        pos <= chunks_at(s, pos, major, acc).1 <= s.len(),
        chunks_at(s, pos, major, acc).0 is Ok ==> pos < chunks_at(s, pos, major, acc).1,
    decreases s.len() - pos,
{
    lemma_head_bounds(s, pos);
    match parse_head(s, pos) {
        Ok(Some(h)) => {
            let start = pos + h.size;
            if !h.is_break() && h.major_type == major && !h.indefinite() && start + h.argument
                <= s.len() {
                lemma_chunks_bounds(
                    s,
                    start + h.argument,
                    major,
                    acc + s.subrange(start, start + h.argument),
                );
            }
        },
        _ => {},
    }
}

/// Decoding a value moves forward and stays inside the input.
pub proof fn lemma_value_bounds(s: Seq<u8>, h: CborHead, pos: int, depth: nat, cfg: Config)
    requires
        0 <= pos <= s.len(),
    ensures
        pos <= value_at(s, h, pos, depth, cfg).1 <= s.len(),
    decreases s.len() - pos, cfg.limited(), 2int,
{
    if head_error(h) is Some {
    } else if pos + declared(h) > s.len() {
    } else if cfg.cuts_off(depth) {
        if !definite_string(h) {
            lemma_value_bounds(s, h, pos, depth, cfg.unlimited());
        }
    } else if h.indefinite() && (h.major_type == MAJOR_BYTES || h.major_type == MAJOR_TEXT) {
        lemma_chunks_bounds(s, pos, h.major_type, Seq::empty());
    } else if h.major_type == MAJOR_ARRAY {
        lemma_items_bounds(s, pos, depth + 1, cfg, h.indefinite(), h.argument as nat, Seq::empty());
    } else if h.major_type == MAJOR_MAP {
        lemma_items_bounds(
            s,
            pos,
            depth + 1,
            cfg,
            h.indefinite(),
            2 * h.argument as nat,
            Seq::empty(),
        );
    } else if h.major_type == MAJOR_TAG {
        lemma_items_bounds(s, pos, depth + 1, cfg, false, 1, Seq::empty());
    }
}

/// Decoding one item of a run moves forward and stays inside the input.
pub proof fn lemma_step_bounds(s: Seq<u8>, pos: int, depth: nat, cfg: Config, until_break: bool)
    requires
        0 <= pos <= s.len(),
    ensures
        pos <= step_at(s, pos, depth, cfg, until_break).1 <= s.len(),
        step_at(s, pos, depth, cfg, until_break).0 is Ok ==> pos < step_at(
            s,
            pos,
            depth,
            cfg,
            until_break,
        ).1,
        step_at(s, pos, depth, cfg, until_break).0 matches Ok(None) ==> until_break,
    decreases s.len() - pos, cfg.limited(), 0int,
{
    lemma_head_bounds(s, pos);
    match parse_head(s, pos) {
        Ok(Some(h)) => {
            if !(until_break && h.is_break()) {
                lemma_value_bounds(s, h, pos + h.size, depth, cfg);
            }
        },
        _ => {},
    }
}

/// Decoding a run of items moves forward and stays inside the input. A run
/// of a given count that decodes holds that many items more than it began
/// with.
pub proof fn lemma_items_bounds(
    s: Seq<u8>,
    pos: int,
    depth: nat,
    cfg: Config,
    until_break: bool,
    remaining: nat,
    acc: Seq<CborItemView>,
)
    requires
        0 <= pos <= s.len(),
    ensures
        pos <= items_at(s, pos, depth, cfg, until_break, remaining, acc).1 <= s.len(),
        !until_break ==> (items_at(s, pos, depth, cfg, until_break, remaining, acc).0 matches Ok(
            items,
        ) ==> items.len() == acc.len() + remaining),
    decreases s.len() - pos, cfg.limited(), 1int,
{
    if !until_break && remaining == 0 {
    } else {
        lemma_step_bounds(s, pos, depth, cfg, until_break);
        match step_at(s, pos, depth, cfg, until_break) {
            (Ok(Some(item)), p) => {
                let left = if until_break {
                    remaining
                } else {
                    (remaining - 1) as nat
                };
                lemma_items_bounds(s, p, depth, cfg, until_break, left, acc.push(item));
            },
            _ => {},
        }
    }
}

/// Exact consumption. A string whose head declares its length and whose
/// value decodes ends exactly that many bytes after the head; it fails, with
/// `Truncated`, exactly where the input has fewer bytes left.
pub proof fn law_definite_string_is_exact(
    s: Seq<u8>,
    h: CborHead,
    pos: int,
    depth: nat,
    cfg: Config,
)
    requires
        0 <= pos <= s.len(),
        head_error(h) is None,
        definite_string(h),
    ensures
        match value_at(s, h, pos, depth, cfg) {
            (Ok(_), p) => p == pos + h.argument,
            (Err(e), p) => e == DecodeError::Truncated && p == pos && pos + h.argument > s.len(),
        },
{
}

/// Containers hold what they announce. An array of declared count that
/// decodes holds that many items, a map that many pairs.
pub proof fn law_container_holds_its_count(
    s: Seq<u8>,
    h: CborHead,
    pos: int,
    depth: nat,
    cfg: Config,
)
    requires
        0 <= pos <= s.len(),
        !h.indefinite(),
    ensures
        value_at(s, h, pos, depth, cfg).0 matches Ok(CborValueView::Array(items)) ==> items.len()
            == h.argument,
        value_at(s, h, pos, depth, cfg).0 matches Ok(CborValueView::Pairs(pairs)) ==> pairs.len()
            == h.argument,
{
    lemma_items_bounds(s, pos, depth + 1, cfg, false, h.argument as nat, Seq::empty());
    lemma_items_bounds(s, pos, depth + 1, cfg, false, 2 * h.argument as nat, Seq::empty());
}

/// The break marker stands just before `p`.
pub open spec fn break_ends_at(s: Seq<u8>, p: int) -> bool {
    parse_head(s, p - 1) matches Ok(Some(h)) && h.is_break()
}

/// Indefinite runs end. A run of items that is to end at a break marker
/// decodes only where a marker is read, and ends just past it; where the
/// input ends in place of an item the run is `Truncated`. However many items
/// come before, no run goes on for ever: each item takes at least one byte
/// of a finite input.
pub proof fn law_indefinite_run_needs_break(
    s: Seq<u8>,
    pos: int,
    depth: nat,
    cfg: Config,
    remaining: nat,
    acc: Seq<CborItemView>,
)
    requires
        0 <= pos <= s.len(),
    ensures
        items_at(s, pos, depth, cfg, true, remaining, acc).0 is Ok ==> pos < items_at(
            s,
            pos,
            depth,
            cfg,
            true,
            remaining,
            acc,
        ).1 && break_ends_at(s, items_at(s, pos, depth, cfg, true, remaining, acc).1),
        pos == s.len() ==> items_at(s, pos, depth, cfg, true, remaining, acc) == (
            Err::<Seq<CborItemView>, DecodeError>(DecodeError::Truncated),
            pos,
        ),
    decreases s.len() - pos,
{
    lemma_step_bounds(s, pos, depth, cfg, true);
    lemma_head_bounds(s, pos);
    match step_at(s, pos, depth, cfg, true) {
        (Ok(Some(item)), p) => {
            law_indefinite_run_needs_break(s, p, depth, cfg, remaining, acc.push(item));
        },
        _ => {},
    }
}

/// What a run makes of the items it began with: it puts them before its
/// own.
pub open spec fn after(
    acc: Seq<CborItemView>,
    run: (Result<Seq<CborItemView>, DecodeError>, int),
) -> (Result<Seq<CborItemView>, DecodeError>, int) {
    (
        match run.0 {
            Ok(items) => Ok(acc + items),
            Err(e) => Err(e),
        },
        run.1,
    )
}

/// Runs only append. The items that a run began with come first in what it
/// gives, unchanged, and have no say in what follows them.
pub proof fn law_run_keeps_its_start(
    s: Seq<u8>,
    pos: int,
    depth: nat,
    cfg: Config,
    until_break: bool,
    remaining: nat,
    acc: Seq<CborItemView>,
)
    ensures
        items_at(s, pos, depth, cfg, until_break, remaining, acc) == after(
            acc,
            items_at(s, pos, depth, cfg, until_break, remaining, Seq::empty()),
        ),
    decreases s.len() - pos,
{
    let empty = Seq::<CborItemView>::empty();
    assert(acc + empty =~= acc);
    if !until_break && remaining == 0 {
    } else {
        match step_at(s, pos, depth, cfg, until_break) {
            (Ok(Some(item)), p) => {
                if pos < p <= s.len() {
                    let left = if until_break {
                        remaining
                    } else {
                        (remaining - 1) as nat
                    };
                    law_run_keeps_its_start(s, p, depth, cfg, until_break, left, acc.push(item));
                    law_run_keeps_its_start(s, p, depth, cfg, until_break, left, empty.push(item));
                    match items_at(s, p, depth, cfg, until_break, left, empty).0 {
                        Ok(rest) => {
                            assert(acc.push(item) + rest =~= acc + (empty.push(item) + rest));
                        },
                        Err(_) => {},
                    }
                }
            },
            _ => {},
        }
    }
}

/// No item of the run from index `from` on is a break marker.
pub open spec fn break_free(items: Seq<CborItemView>, from: int) -> bool {
    forall|i: int|
        from <= i < items.len() ==> !((#[trigger] items[i]).major_type == MAJOR_SIMPLE
            && items[i].additional_info == AI_INDEFINITE)
}

/// A run without a break marker is cut short. Where the bytes up to the
/// end of the input decode as so many items, and none of those items is a
/// break marker, the same bytes read as a run that is to end at a break
/// marker are `Truncated`, at the end of the input.
pub proof fn law_run_without_break_is_truncated(
    s: Seq<u8>,
    pos: int,
    depth: nat,
    cfg: Config,
    count: nat,
    filled: Seq<CborItemView>,
    remaining: nat,
    acc: Seq<CborItemView>,
)
    requires
        0 <= pos <= s.len(),
        items_at(s, pos, depth, cfg, false, count, filled).0 matches Ok(items) && break_free(
            items,
            filled.len() as int,
        ),
        items_at(s, pos, depth, cfg, false, count, filled).1 == s.len(),
    ensures
        items_at(s, pos, depth, cfg, true, remaining, acc) == (
            Err::<Seq<CborItemView>, DecodeError>(DecodeError::Truncated),
            s.len() as int,
        ),
    decreases s.len() - pos,
{
    lemma_head_bounds(s, pos);
    lemma_step_bounds(s, pos, depth, cfg, false);
    lemma_step_bounds(s, pos, depth, cfg, true);
    if count == 0 {
    } else {
        match step_at(s, pos, depth, cfg, false) {
            (Ok(Some(item)), p) => {
                law_run_keeps_its_start(
                    s,
                    p,
                    depth,
                    cfg,
                    false,
                    (count - 1) as nat,
                    filled.push(item),
                );
                let items = items_at(s, pos, depth, cfg, false, count, filled).0->Ok_0;
                assert(items[filled.len() as int] == item);
                law_run_without_break_is_truncated(
                    s,
                    p,
                    depth,
                    cfg,
                    (count - 1) as nat,
                    filled.push(item),
                    remaining,
                    acc.push(item),
                );
            },
            _ => {},
        }
    }
}

/// Indefinite strings end. The chunks of an indefinite-length string decode
/// only where a break marker is read, and end just past it; where the input
/// ends in place of a chunk the string is `Truncated`.
pub proof fn law_indefinite_string_needs_break(s: Seq<u8>, pos: int, major: u8, acc: Seq<u8>)
    requires
        0 <= pos <= s.len(),
    ensures
        chunks_at(s, pos, major, acc).0 is Ok ==> break_ends_at(s, chunks_at(s, pos, major, acc).1),
        pos == s.len() ==> chunks_at(s, pos, major, acc) == (
            Err::<Seq<u8>, DecodeError>(DecodeError::Truncated),
            pos,
        ),
    decreases s.len() - pos,
{
    lemma_head_bounds(s, pos);
    match parse_head(s, pos) {
        Ok(Some(h)) => {
            let start = pos + h.size;
            if !h.is_break() && h.major_type == major && !h.indefinite() && start + h.argument
                <= s.len() {
                law_indefinite_string_needs_break(
                    s,
                    start + h.argument,
                    major,
                    acc + s.subrange(start, start + h.argument),
                );
            }
        },
        _ => {},
    }
}

/// The nesting limit cuts without failing. An item below the deepest level
/// that is decoded, whose value would decode if there were no limit, decodes
/// to `NestingExceeded` and ends where the item ends: decoding goes on at the
/// position at which it would go on without the limit. None of the items
/// nested in it is kept.
pub proof fn law_nesting_limit_cuts(s: Seq<u8>, h: CborHead, pos: int, depth: nat, cfg: Config)
    requires
        0 <= pos <= s.len(),
        cfg.cuts_off(depth),
        value_at(s, h, pos, depth, cfg.unlimited()).0 is Ok,
    ensures
        value_at(s, h, pos, depth, cfg) == (
            Ok::<CborValueView, DecodeError>(CborValueView::NestingExceeded),
            value_at(s, h, pos, depth, cfg.unlimited()).1,
        ),
{
}

/// A cut string of declared length is passed over. A string below the
/// deepest level that is decoded, whose head has nothing wrong and declares a
/// length that lies inside the input, decodes to `NestingExceeded` whatever
/// its bytes are, and decoding goes on just past them.
pub proof fn law_cut_string_is_passed_over(
    s: Seq<u8>,
    h: CborHead,
    pos: int,
    depth: nat,
    cfg: Config,
)
    requires
        cfg.cuts_off(depth),
        head_error(h) is None,
        definite_string(h),
        pos + h.argument <= s.len(),
    ensures
        value_at(s, h, pos, depth, cfg) == (
            Ok::<CborValueView, DecodeError>(CborValueView::NestingExceeded),
            pos + h.argument,
        ),
{
}

/// Malformed text is counted, not fatal. A text string of declared length
/// whose bytes lie inside the input and are not well-formed UTF-8 decodes, to
/// `InvalidText` with its bytes; decoding goes on just past it, and the value
/// counts for one error.
pub proof fn law_malformed_text_is_not_fatal(
    s: Seq<u8>,
    h: CborHead,
    pos: int,
    depth: nat,
    cfg: Config,
)
    requires
        0 <= pos,
        pos + h.argument <= s.len(),
        !cfg.cuts_off(depth),
        head_error(h) is None,
        h.major_type == MAJOR_TEXT,
        !h.indefinite(),
        !valid_utf8(s.subrange(pos, pos + h.argument)),
    ensures
        value_at(s, h, pos, depth, cfg) == (
            Ok::<CborValueView, DecodeError>(
                CborValueView::InvalidText(s.subrange(pos, pos + h.argument)),
            ),
            pos + h.argument,
        ),
        value_count(CborValueView::InvalidText(s.subrange(pos, pos + h.argument)), true) == 1,
{
}

/// The items lie one after the other from `from` to `to`, with no byte
/// between them and none shared.
pub open spec fn contiguous(items: Seq<CborItemView>, from: int, to: int) -> bool
    decreases items.len(),
{
    if items.len() == 0 {
        from == to
    } else {
        &&& items.last().end == to
        &&& items.last().offset < items.last().end
        &&& contiguous(items.drop_last(), from, items.last().offset as int)
    }
}

/// The keys and values lie one after the other from `from` to `to`, each
/// value right after its key.
pub open spec fn contiguous_pairs(pairs: Seq<(CborItemView, CborItemView)>, from: int, to: int)
    -> bool
    decreases pairs.len(),
{
    if pairs.len() == 0 {
        from == to
    } else {
        let key = pairs.last().0;
        let value = pairs.last().1;
        &&& value.end == to
        &&& value.offset < value.end
        &&& key.end == value.offset
        &&& key.offset < key.end
        &&& contiguous_pairs(pairs.drop_last(), from, key.offset as int)
    }
}

/// Where a run of items ends that started at `from`: at the end of its last
/// item.
pub open spec fn run_end(items: Seq<CborItemView>, from: int) -> int {
    if items.len() == 0 {
        from
    } else {
        items.last().end as int
    }
}

/// Where the pairs of a map end that started at `from`: at the end of the
/// last value.
pub open spec fn pairs_end(pairs: Seq<(CborItemView, CborItemView)>, from: int) -> int {
    if pairs.len() == 0 {
        from
    } else {
        pairs.last().1.end as int
    }
}

/// The bytes that close an item after what it holds: the one byte of the
/// break marker where the head carries the indefinite marker, none
/// otherwise.
pub open spec fn closing(item: CborItemView) -> int {
    if item.additional_info == 31 {
        1
    } else {
        0
    }
}

/// A string of `len` bytes ends where it should: as many bytes after its
/// head where the head declares its length, and that many and the byte of
/// the break marker, at least, after its head where it comes in chunks.
pub open spec fn string_ends(item: CborItemView, len: nat) -> bool {
    let body = (item.offset + item.raw_bytes.len()) as int;
    if item.additional_info == 31 {
        body + len + 1 <= item.end
    } else {
        body + len == item.end
    }
}

/// The item, read at nesting level `depth`, and every item nested in it are
/// exactly placed:
///
/// * the head takes at least one byte and the item ends no earlier than its
///   head;
/// * below the deepest level that is decoded stands `NestingExceeded` and
///   nothing else;
/// * a string ends as `string_ends` says, for as many bytes as it holds, a
///   text string for as many as its characters take in UTF-8;
/// * the items of an array, and the keys and values of a map, lie one after
///   the other from the end of the head up to the end of the item, or up to
///   its break marker;
/// * the item of a tag starts at the end of the head and ends where the tag
///   ends;
/// * an integer, a simple value, a floating-point number and a break marker
///   end with their head.
pub open spec fn exact(item: CborItemView, depth: nat, cfg: Config) -> bool
    decreases item,
{
    let body = (item.offset + item.raw_bytes.len()) as int;
    &&& item.raw_bytes.len() >= 1
    &&& body <= item.end
    &&& (cfg.cuts_off(depth) ==> item.value is NestingExceeded)
    &&& match item.value {
        CborValueView::Bytes(bytes) => string_ends(item, bytes.len()),
        CborValueView::InvalidText(bytes) => string_ends(item, bytes.len()),
        CborValueView::Text(text) => string_ends(item, encode_utf8(text).len()),
        CborValueView::NestingExceeded => true,
        CborValueView::Array(items) => {
            &&& forall|i: int|
                0 <= i < items.len() ==> exact(#[trigger] items[i], depth + 1, cfg)
            &&& contiguous(items, body, run_end(items, body))
            &&& run_end(items, body) + closing(item) == item.end
        },
        CborValueView::Pairs(pairs) => {
            &&& forall|i: int|
                0 <= i < pairs.len() ==> exact((#[trigger] pairs[i]).0, depth + 1, cfg) && exact(
                    pairs[i].1,
                    depth + 1,
                    cfg,
                )
            &&& contiguous_pairs(pairs, body, pairs_end(pairs, body))
            &&& pairs_end(pairs, body) + closing(item) == item.end
        },
        CborValueView::Tag(_, inner) => {
            &&& exact(*inner, depth + 1, cfg)
            &&& inner.offset == body
            &&& inner.end == item.end
        },
        _ => item.end == body,
    }
}

/// Every item of the run is exactly placed at nesting level `depth`.
pub open spec fn all_exact(items: Seq<CborItemView>, depth: nat, cfg: Config) -> bool {
    forall|i: int| 0 <= i < items.len() ==> exact(#[trigger] items[i], depth, cfg)
}

/// Items taken two by two keep their places: what holds of the run holds of
/// the keys and values.
proof fn lemma_paired_exact(items: Seq<CborItemView>, from: int, to: int, depth: nat, cfg: Config)
    requires
        items.len() % 2 == 0,
        all_exact(items, depth, cfg),
        contiguous(items, from, to),
    ensures
        forall|i: int|
            0 <= i < paired(items).len() ==> exact((#[trigger] paired(items)[i]).0, depth, cfg)
                && exact(paired(items)[i].1, depth, cfg),
        contiguous_pairs(paired(items), from, to),
        pairs_end(paired(items), from) == to,
    decreases items.len(),
{
    if items.len() >= 2 {
        let n = items.len() as int;
        let front = items.take(n - 2);
        let most = items.drop_last();
        assert(most.drop_last() =~= front);
        assert(most.last() == items[n - 2]);
        assert(items.last() == items[n - 1]);
        assert(contiguous(most, from, items[n - 1].offset as int));
        assert(contiguous(front, from, items[n - 2].offset as int));
        assert(all_exact(front, depth, cfg)) by {
            assert forall|i: int| 0 <= i < front.len() implies exact(
                #[trigger] front[i],
                depth,
                cfg,
            ) by {
                assert(front[i] == items[i]);
            }
        }
        lemma_paired_exact(front, from, items[n - 2].offset as int, depth, cfg);
        assert(paired(items).drop_last() =~= paired(front));
        assert(paired(items).last() == (items[n - 2], items[n - 1]));
        assert forall|i: int| 0 <= i < paired(items).len() implies exact(
            (#[trigger] paired(items)[i]).0,
            depth,
            cfg,
        ) && exact(paired(items)[i].1, depth, cfg) by {
            assert(paired(items)[i] == (items[2 * i], items[2 * i + 1]));
        }
    } else {
        assert(paired(items) =~= Seq::<(CborItemView, CborItemView)>::empty());
    }
}

/// A run that lies one after the other ends at the end of its last item.
proof fn lemma_contiguous_run_end(items: Seq<CborItemView>, from: int, to: int)
    requires
        contiguous(items, from, to),
    ensures
        run_end(items, from) == to,
{
}

/// The chunks of a string take their bytes, and the break marker one more.
proof fn lemma_chunks_length(s: Seq<u8>, pos: int, major: u8, acc: Seq<u8>)
    requires
        0 <= pos <= s.len(),
    ensures
        chunks_at(s, pos, major, acc).0 matches Ok(bytes) ==> bytes.len() >= acc.len() && pos
            + (bytes.len() - acc.len()) + 1 <= chunks_at(s, pos, major, acc).1,
    decreases s.len() - pos,
{
    lemma_head_bounds(s, pos);
    match parse_head(s, pos) {
        Ok(Some(h)) => {
            let start = pos + h.size;
            if !h.is_break() && h.major_type == major && !h.indefinite() && start + h.argument
                <= s.len() {
                lemma_chunks_length(
                    s,
                    start + h.argument,
                    major,
                    acc + s.subrange(start, start + h.argument),
                );
            }
        },
        _ => {},
    }
}

/// The value of an item that decodes makes an exactly placed item.
proof fn lemma_value_exact(
    s: Seq<u8>,
    offset: int,
    h: CborHead,
    pos: int,
    depth: nat,
    cfg: Config,
)
    requires
        0 <= offset,
        offset + 1 <= pos <= s.len(),
        pos == offset + h.size,
        parse_head(s, offset) == Ok::<Option<CborHead>, DecodeError>(Some(h)),
    ensures
        value_at(s, h, pos, depth, cfg).0 matches Ok(value) ==> exact(
            super::decode::item_view(s, offset, h, value, value_at(s, h, pos, depth, cfg).1),
            depth,
            cfg,
        ),
    decreases s.len() - pos, 2int,
{
    lemma_head_bounds(s, offset);
    lemma_value_bounds(s, h, pos, depth, cfg);
    if head_error(h) is Some {
    } else if pos + declared(h) > s.len() {
    } else if cfg.cuts_off(depth) {
        if !definite_string(h) {
            lemma_value_bounds(s, h, pos, depth, cfg.unlimited());
        }
    } else if h.indefinite() && (h.major_type == MAJOR_BYTES || h.major_type == MAJOR_TEXT) {
        lemma_chunks_length(s, pos, h.major_type, Seq::empty());
        match chunks_at(s, pos, h.major_type, Seq::empty()).0 {
            Ok(bytes) => {
                if valid_utf8(bytes) {
                    decode_utf8_encode_utf8(bytes);
                }
            },
            Err(_) => {},
        }
    } else if h.major_type == MAJOR_TEXT {
        let bytes = s.subrange(pos, pos + h.argument);
        if valid_utf8(bytes) {
            decode_utf8_encode_utf8(bytes);
        }
    } else if h.major_type == MAJOR_ARRAY {
        lemma_items_exact(
            s,
            pos,
            depth + 1,
            cfg,
            h.indefinite(),
            h.argument as nat,
            Seq::empty(),
            pos,
        );
    } else if h.major_type == MAJOR_MAP {
        lemma_items_exact(
            s,
            pos,
            depth + 1,
            cfg,
            h.indefinite(),
            2 * h.argument as nat,
            Seq::empty(),
            pos,
        );
        let (r, p) = items_at(
            s,
            pos,
            depth + 1,
            cfg,
            h.indefinite(),
            2 * h.argument as nat,
            Seq::empty(),
        );
        match r {
            Ok(items) => {
                if items.len() % 2 == 0 {
                    lemma_paired_exact(items, pos, run_end(items, pos), depth + 1, cfg);
                }
            },
            Err(_) => {},
        }
    } else if h.major_type == MAJOR_TAG {
        lemma_items_exact(s, pos, depth + 1, cfg, false, 1, Seq::empty(), pos);
        lemma_items_bounds(s, pos, depth + 1, cfg, false, 1, Seq::empty());
        let (r, p) = items_at(s, pos, depth + 1, cfg, false, 1, Seq::empty());
        match r {
            Ok(items) => {
                assert(items.len() == 1);
                assert(items.drop_last() =~= Seq::<CborItemView>::empty());
                assert(items.last() == items[0]);
                assert(contiguous(items, pos, run_end(items, pos)));
                assert(contiguous(items.drop_last(), pos, items.last().offset as int));
                assert(items[0].offset == pos);
            },
            Err(_) => {},
        }
    }
}

/// A run of items that decodes is exactly placed and lies one after the
/// other from where the run began; a run that ends at a break marker ends one
/// byte before the position that follows it.
proof fn lemma_items_exact(
    s: Seq<u8>,
    pos: int,
    depth: nat,
    cfg: Config,
    until_break: bool,
    remaining: nat,
    acc: Seq<CborItemView>,
    from: int,
)
    requires
        0 <= pos <= s.len(),
        all_exact(acc, depth, cfg),
        contiguous(acc, from, pos),
    ensures
        items_at(s, pos, depth, cfg, until_break, remaining, acc).0 matches Ok(items) ==> {
            let p = items_at(s, pos, depth, cfg, until_break, remaining, acc).1;
            &&& all_exact(items, depth, cfg)
            &&& contiguous(items, from, run_end(items, from))
            &&& if until_break {
                run_end(items, from) + 1 == p
            } else {
                run_end(items, from) == p
            }
        },
    decreases s.len() - pos, 1int,
{
    lemma_contiguous_run_end(acc, from, pos);
    if !until_break && remaining == 0 {
    } else {
        lemma_head_bounds(s, pos);
        lemma_step_bounds(s, pos, depth, cfg, until_break);
        match parse_head(s, pos) {
            Ok(Some(h)) => {
                let start = pos + h.size;
                if until_break && h.is_break() {
                } else {
                    lemma_value_exact(s, pos, h, start, depth, cfg);
                    match step_at(s, pos, depth, cfg, until_break) {
                        (Ok(Some(item)), p) => {
                            let left = if until_break {
                                remaining
                            } else {
                                (remaining - 1) as nat
                            };
                            let next = acc.push(item);
                            assert(next.drop_last() =~= acc);
                            assert(next.last() == item);
                            assert(all_exact(next, depth, cfg)) by {
                                assert forall|i: int| 0 <= i < next.len() implies exact(
                                    #[trigger] next[i],
                                    depth,
                                    cfg,
                                ) by {
                                    if i < acc.len() {
                                        assert(next[i] == acc[i]);
                                    }
                                }
                            }
                            lemma_items_exact(s, p, depth, cfg, until_break, left, next, from);
                        },
                        _ => {},
                    }
                }
            },
            _ => {},
        }
    }
}

/// Items are exactly placed. Every item that decodes, at whatever level,
/// is read from the bytes its head announces: see `exact`.
pub proof fn law_items_are_exact(s: Seq<u8>, pos: int, depth: nat, cfg: Config)
    requires
        0 <= pos <= s.len(),
    ensures
        item_at(s, pos, depth, cfg).0 matches Ok(Some(item)) ==> exact(item, depth, cfg),
{
    lemma_head_bounds(s, pos);
    match parse_head(s, pos) {
        Ok(Some(h)) => {
            lemma_value_exact(s, pos, h, pos + h.size, depth, cfg);
        },
        _ => {},
    }
}

/// Every item moves forward. A whole item, head and value, moves the
/// position forward by at least the byte of its head, and stays inside the
/// input.
pub proof fn law_item_moves_forward(s: Seq<u8>, pos: int, depth: nat, cfg: Config)
    requires
        0 <= pos <= s.len(),
    ensures
        pos <= item_at(s, pos, depth, cfg).1 <= s.len(),
        item_at(s, pos, depth, cfg).0 matches Ok(Some(item)) ==> item.offset == pos && pos + 1
            <= item.offset + item.raw_bytes.len() <= item.end == item_at(s, pos, depth, cfg).1,
{
    lemma_head_bounds(s, pos);
    match parse_head(s, pos) {
        Ok(Some(h)) => {
            lemma_value_bounds(s, h, pos + h.size, depth, cfg);
        },
        _ => {},
    }
}

/// Every item among the entries is exactly placed as an outermost item.
pub open spec fn items_exact(entries: Seq<CborEntryView>, cfg: Config) -> bool {
    forall|i: int|
        0 <= i < entries.len() ==> ((#[trigger] entries[i]) matches CborEntryView::Item(item)
            ==> exact(item, 0, cfg))
}

/// None of the entries is a failure.
pub open spec fn no_failure(entries: Seq<CborEntryView>) -> bool {
    forall|i: int| 0 <= i < entries.len() ==> (#[trigger] entries[i]) is Item
}

/// Nothing is lost in a dump. The outermost items that a whole input
/// decodes to are exactly placed; decoding stops inside the input; and where
/// no entry is a failure, it stops at the end of the input.
pub proof fn law_dump_is_exact(s: Seq<u8>, pos: int, cfg: Config, acc: Seq<CborEntryView>)
    requires
        0 <= pos <= s.len(),
        items_exact(acc, cfg),
    ensures
        ({
            let d = dump_at(s, pos, cfg, acc);
            &&& items_exact(d.0, cfg)
            &&& pos <= d.1 <= s.len()
            &&& no_failure(d.0) ==> d.1 == s.len()
        }),
    decreases s.len() - pos,
{
    law_item_moves_forward(s, pos, 0, cfg);
    law_items_are_exact(s, pos, 0, cfg);
    match item_at(s, pos, 0, cfg) {
        (Ok(None), p) => {},
        (Ok(Some(item)), p) => {
            let next = acc.push(CborEntryView::Item(item));
            assert(items_exact(next, cfg)) by {
                assert forall|i: int| 0 <= i < next.len() implies ((#[trigger] next[i]) matches CborEntryView::Item(
                    it,
                ) ==> exact(it, 0, cfg)) by {
                    if i < acc.len() {
                        assert(next[i] == acc[i]);
                    }
                }
            }
            law_dump_is_exact(s, p, cfg, next);
        },
        (Err(e), p) => {
            let next = acc.push(CborEntryView::Failure(e, p as nat));
            assert(items_exact(next, cfg)) by {
                assert forall|i: int| 0 <= i < next.len() implies ((#[trigger] next[i]) matches CborEntryView::Item(
                    it,
                ) ==> exact(it, 0, cfg)) by {
                    if i < acc.len() {
                        assert(next[i] == acc[i]);
                    }
                }
            }
            assert(next[acc.len() as int] is Failure);
            if e.recoverable() && pos < p <= s.len() {
                law_dump_is_exact(s, p, cfg, next);
                let d = dump_at(s, p, cfg, next);
                law_dump_keeps_its_start(s, p, cfg, next);
                assert(d.0[acc.len() as int] == next[acc.len() as int]);
            }
        },
    }
}

/// Dumps only append. The entries that a dump began with come first in what
/// it gives, unchanged.
pub proof fn law_dump_keeps_its_start(s: Seq<u8>, pos: int, cfg: Config, acc: Seq<CborEntryView>)
    ensures
        dump_at(s, pos, cfg, acc).0.len() >= acc.len(),
        forall|i: int| 0 <= i < acc.len() ==> dump_at(s, pos, cfg, acc).0[i] == acc[i],
    decreases s.len() - pos,
{
    let (r, p) = item_at(s, pos, 0, cfg);
    let next = match r {
        Ok(None) => acc,
        Ok(Some(item)) => acc.push(CborEntryView::Item(item)),
        Err(e) => acc.push(CborEntryView::Failure(e, p as nat)),
    };
    let goes_on = match r {
        Ok(None) => false,
        Ok(Some(_)) => pos < p <= s.len(),
        Err(e) => e.recoverable() && pos < p <= s.len(),
    };
    if goes_on {
        law_dump_keeps_its_start(s, p, cfg, next);
        assert forall|i: int| 0 <= i < acc.len() implies dump_at(s, pos, cfg, acc).0[i]
            == acc[i] by {
            assert(next[i] == acc[i]);
            assert(dump_at(s, p, cfg, next).0[i] == next[i]);
        }
    } else {
        assert forall|i: int| 0 <= i < acc.len() implies dump_at(s, pos, cfg, acc).0[i]
            == acc[i] by {
            assert(next[i] == acc[i]);
        }
    }
}

} // verus!
