//! The recursive decoder: from a head to the value of its item, through the
//! items nested in it.

use crate::bytes::copy_range;
use crate::cbor::config::Config;
use crate::cbor::float::{f16_to_f32, widen_half};
use crate::cbor::head::{
    parse_head, read_head, CborHead, AI_2BYTES, AI_4BYTES, AI_8BYTES, AI_INDEFINITE, MAJOR_ARRAY,
    MAJOR_BYTES, MAJOR_MAP, MAJOR_NEGATIVE, MAJOR_TAG, MAJOR_TEXT, MAJOR_UNSIGNED, SIMPLE_FALSE,
    SIMPLE_NULL, SIMPLE_TRUE, SIMPLE_UNDEFINED,
};
use crate::cbor::value::{
    items_view, paired, pairs_view, CborItem, CborItemView, CborValue, CborValueView,
};
use crate::error::DecodeError;
use crate::text::string_from_utf8;
use vstd::prelude::*;
use vstd::utf8::{decode_utf8, valid_utf8};

verus! {

/// What is wrong with a head by itself, if anything: a major type above 7,
/// additional information that is reserved or above 31, or the indefinite
/// marker on a major type that has no indefinite form.
pub open spec fn head_error(h: CborHead) -> Option<DecodeError> {
    if h.major_type > 7 {
        Some(DecodeError::InvalidMajorType)
    } else if h.additional_info > 31 || 28 <= h.additional_info <= 30 || (h.indefinite()
        && !h.may_be_indefinite()) {
        Some(DecodeError::InvalidAdditionalInfo)
    } else {
        None
    }
}

/// The head announces a string whose length in bytes is its argument.
pub open spec fn definite_string(h: CborHead) -> bool {
    (h.major_type == MAJOR_BYTES || h.major_type == MAJOR_TEXT) && !h.indefinite()
}

/// The payload bytes that a head declares: the argument of a string of
/// definite length, none otherwise.
pub open spec fn declared(h: CborHead) -> int {
    if definite_string(h) {
        h.argument as int
    } else {
        0
    }
}

/// The value of a head of major type 7.
pub open spec fn simple_value(h: CborHead) -> CborValueView {
    if h.additional_info == SIMPLE_FALSE {
        CborValueView::Boolean(false)
    } else if h.additional_info == SIMPLE_TRUE {
        CborValueView::Boolean(true)
    } else if h.additional_info == SIMPLE_NULL {
        CborValueView::Null
    } else if h.additional_info == SIMPLE_UNDEFINED {
        CborValueView::Undefined
    } else if h.additional_info == AI_2BYTES {
        CborValueView::Float16(widen_half(h.argument as u16))
    } else if h.additional_info == AI_4BYTES {
        CborValueView::Float32(h.argument as u32)
    } else if h.additional_info == AI_8BYTES {
        CborValueView::Float64(h.argument)
    } else if h.additional_info == AI_INDEFINITE {
        CborValueView::Break
    } else {
        CborValueView::Simple(h.argument as u8)
    }
}

/// The value of a text string with the given bytes.
pub open spec fn text_value(bytes: Seq<u8>) -> CborValueView {
    if valid_utf8(bytes) {
        CborValueView::Text(decode_utf8(bytes))
    } else {
        CborValueView::InvalidText(bytes)
    }
}

/// The bytes of an indefinite-length string of major type `major`: those of
/// its chunks from `pos` on, after the bytes `acc`, up to the break marker,
/// with the position at which reading stopped.
///
/// Each chunk is a string of the same major type and of definite length. A
/// chunk of another major type is `ChunkTypeMismatch`, a chunk of indefinite
/// length `NestedIndefiniteChunk`; both leave the position at the chunk.
pub open spec fn chunks_at(s: Seq<u8>, pos: int, major: u8, acc: Seq<u8>) -> (
    Result<Seq<u8>, DecodeError>,
    int,
)
    decreases s.len() - pos,
{
    match parse_head(s, pos) {
        Err(e) => (Err(e), pos),
        Ok(None) => (Err(DecodeError::Truncated), pos),
        Ok(Some(h)) => {
            let start = pos + h.size;
            if !(pos < start <= s.len()) {
                (Err(DecodeError::Truncated), pos)
            } else if h.is_break() {
                (Ok(acc), start)
            } else if h.major_type != major {
                (Err(DecodeError::ChunkTypeMismatch), pos)
            } else if h.indefinite() {
                (Err(DecodeError::NestedIndefiniteChunk), pos)
            } else if start + h.argument > s.len() {
                (Err(DecodeError::Truncated), start)
            } else {
                chunks_at(
                    s,
                    start + h.argument,
                    major,
                    acc + s.subrange(start, start + h.argument),
                )
            }
        },
    }
}

/// The value of the item with head `h` whose payload starts at `pos`,
/// together with the position at which reading stopped. `depth` is the
/// nesting level of the item; the outermost items are at level 0.
///
/// * A head that `head_error` rejects gives that error.
/// * A string of definite length takes as many bytes as its argument says;
///   `Truncated` where the input has fewer.
/// * An item below the deepest level that is decoded is `NestingExceeded`,
///   and ends where the item ends. The bytes of a string of definite length
///   are passed over unread. Whatever else belongs to the item is walked as
///   if there were no limit, to find its end, and not kept; a failure on the
///   way is the failure of the item.
/// * An array holds as many items as its argument says, or those up to the
///   break marker. A map holds twice as many, taken two by two; a map closed
///   by a break marker after a key is `DanglingMapKey`, with the position past
///   the marker. A tag holds one item.
///
/// On failure the position is that of the read that failed.
pub open spec fn value_at(s: Seq<u8>, h: CborHead, pos: int, depth: nat, cfg: Config) -> (
    Result<CborValueView, DecodeError>,
    int,
)
    decreases s.len() - pos, cfg.limited(), 2int,
{
    if head_error(h) is Some {
        (Err(head_error(h).unwrap()), pos)
    } else if pos + declared(h) > s.len() {
        (Err(DecodeError::Truncated), pos)
    } else if cfg.cuts_off(depth) {
        if definite_string(h) {
            (Ok(CborValueView::NestingExceeded), pos + h.argument)
        } else {
            not_kept(value_at(s, h, pos, depth, cfg.unlimited()))
        }
    } else if h.major_type == MAJOR_UNSIGNED {
        (Ok(CborValueView::Unsigned(h.argument)), pos)
    } else if h.major_type == MAJOR_NEGATIVE {
        (Ok(CborValueView::Negative(-1 - h.argument)), pos)
    } else if h.major_type == MAJOR_BYTES {
        if h.indefinite() {
            let (r, p) = chunks_at(s, pos, MAJOR_BYTES, Seq::empty());
            match r {
                Ok(bytes) => (Ok(CborValueView::Bytes(bytes)), p),
                Err(e) => (Err(e), p),
            }
        } else {
            (Ok(CborValueView::Bytes(s.subrange(pos, pos + h.argument))), pos + h.argument)
        }
    } else if h.major_type == MAJOR_TEXT {
        if h.indefinite() {
            let (r, p) = chunks_at(s, pos, MAJOR_TEXT, Seq::empty());
            match r {
                Ok(bytes) => (Ok(text_value(bytes)), p),
                Err(e) => (Err(e), p),
            }
        } else {
            (Ok(text_value(s.subrange(pos, pos + h.argument))), pos + h.argument)
        }
    } else if h.major_type == MAJOR_ARRAY {
        let (r, p) = items_at(
            s,
            pos,
            depth + 1,
            cfg,
            h.indefinite(),
            h.argument as nat,
            Seq::empty(),
        );
        match r {
            Ok(items) => (Ok(CborValueView::Array(items)), p),
            Err(e) => (Err(e), p),
        }
    } else if h.major_type == MAJOR_MAP {
        pair_up(
            items_at(s, pos, depth + 1, cfg, h.indefinite(), 2 * h.argument as nat, Seq::empty()),
        )
    } else if h.major_type == MAJOR_TAG {
        let (r, p) = items_at(s, pos, depth + 1, cfg, false, 1, Seq::empty());
        match r {
            Ok(items) => (Ok(CborValueView::Tag(h.argument, Box::new(items[0]))), p),
            Err(e) => (Err(e), p),
        }
    } else {
        (Ok(simple_value(h)), pos)
    }
}

/// What is left of a value that was walked to find its end and is not kept:
/// the position, and the failure if there was one.
pub open spec fn not_kept(walked: (Result<CborValueView, DecodeError>, int)) -> (
    Result<CborValueView, DecodeError>,
    int,
) {
    (
        match walked.0 {
            Ok(_) => Ok(CborValueView::NestingExceeded),
            Err(e) => Err(e),
        },
        walked.1,
    )
}

/// The value of a map from the items read for it: its pairs, or
/// `DanglingMapKey` where the last key has no value.
pub open spec fn pair_up(flat: (Result<Seq<CborItemView>, DecodeError>, int)) -> (
    Result<CborValueView, DecodeError>,
    int,
) {
    match flat.0 {
        Ok(items) => if items.len() % 2 == 1 {
            (Err(DecodeError::DanglingMapKey), flat.1)
        } else {
            (Ok(CborValueView::Pairs(paired(items))), flat.1)
        },
        Err(e) => (Err(e), flat.1),
    }
}

/// The next item of a run at nesting level `depth`, with the position at
/// which reading stopped. With `until_break`, a break marker at `pos` is
/// read and gives `Ok(None)`. The end of the input in place of an item is
/// `Truncated`.
pub open spec fn step_at(s: Seq<u8>, pos: int, depth: nat, cfg: Config, until_break: bool) -> (
    Result<Option<CborItemView>, DecodeError>,
    int,
)
    decreases s.len() - pos, cfg.limited(), 0int,
{
    match parse_head(s, pos) {
        Err(e) => (Err(e), pos),
        Ok(None) => (Err(DecodeError::Truncated), pos),
        Ok(Some(h)) => {
            let start = pos + h.size;
            if !(pos < start <= s.len()) {
                (Err(DecodeError::Truncated), pos)
            } else if until_break && h.is_break() {
                (Ok(None), start)
            } else {
                let (r, p) = value_at(s, h, start, depth, cfg);
                match r {
                    Err(e) => (Err(e), p),
                    Ok(value) => (Ok(Some(item_view(s, pos, h, value, p))), p),
                }
            }
        },
    }
}

/// The item read at `pos` with head `h`, value `value` and end `end`.
pub open spec fn item_view(s: Seq<u8>, pos: int, h: CborHead, value: CborValueView, end: int)
    -> CborItemView {
    CborItemView {
        major_type: h.major_type,
        additional_info: h.additional_info,
        value,
        raw_bytes: s.subrange(pos, pos + h.size),
        offset: pos as nat,
        end: end as nat,
    }
}

/// The items that follow the items `acc` from `pos` on, all at nesting level
/// `depth`, with the position at which reading stopped. With `until_break`
/// the run ends at a break marker; without it, after `remaining` more items.
///
/// Every item takes at least one byte; the test on `p` says so again to make
/// the definition well-founded, as do the tests on `start` in `step_at` and
/// `chunks_at`. Inside the input they never fail: see `lemma_head_bounds` and
/// `lemma_step_bounds`.
pub open spec fn items_at(
    s: Seq<u8>,
    pos: int,
    depth: nat,
    cfg: Config,
    until_break: bool,
    remaining: nat,
    acc: Seq<CborItemView>,
) -> (Result<Seq<CborItemView>, DecodeError>, int)
    decreases s.len() - pos, cfg.limited(), 1int,
{
    if !until_break && remaining == 0 {
        (Ok(acc), pos)
    } else {
        match step_at(s, pos, depth, cfg, until_break) {
            (Err(e), p) => (Err(e), p),
            (Ok(None), p) => (Ok(acc), p),
            (Ok(Some(item)), p) => if !(pos < p <= s.len()) {
                (Err(DecodeError::Truncated), p)
            } else {
                items_at(
                    s,
                    p,
                    depth,
                    cfg,
                    until_break,
                    if until_break {
                        remaining
                    } else {
                        (remaining - 1) as nat
                    },
                    acc.push(item),
                )
            },
        }
    }
}

/// The item that starts at `pos`, head and value, with the position at which
/// reading stopped; `Ok(None)` where no byte is left.
pub open spec fn item_at(s: Seq<u8>, pos: int, depth: nat, cfg: Config) -> (
    Result<Option<CborItemView>, DecodeError>,
    int,
) {
    match parse_head(s, pos) {
        Err(e) => (Err(e), pos),
        Ok(None) => (Ok(None), pos),
        Ok(Some(h)) => {
            let (r, p) = value_at(s, h, pos + h.size, depth, cfg);
            match r {
                Err(e) => (Err(e), p),
                Ok(value) => (Ok(Some(item_view(s, pos, h, value, p))), p),
            }
        },
    }
}

/// The mathematical value of what `decode_value` returns.
pub open spec fn value_outcome(r: (Result<CborValue, DecodeError>, usize)) -> (
    Result<CborValueView, DecodeError>,
    int,
) {
    (
        match r.0 {
            Ok(v) => Ok(v.view()),
            Err(e) => Err(e),
        },
        r.1 as int,
    )
}

/// The mathematical value of what `decode_items` returns.
pub open spec fn items_outcome(r: (Result<Vec<CborItem>, DecodeError>, usize)) -> (
    Result<Seq<CborItemView>, DecodeError>,
    int,
) {
    (
        match r.0 {
            Ok(items) => Ok(items_view(items@)),
            Err(e) => Err(e),
        },
        r.1 as int,
    )
}

/// The mathematical value of what `decode_step` and `decode_item` return.
pub open spec fn item_outcome(r: (Result<Option<CborItem>, DecodeError>, usize)) -> (
    Result<Option<CborItemView>, DecodeError>,
    int,
) {
    (
        match r.0 {
            Ok(Some(item)) => Ok(Some(item.view())),
            Ok(None) => Ok(None),
            Err(e) => Err(e),
        },
        r.1 as int,
    )
}

/// The mathematical value of what `decode_chunks` returns.
pub open spec fn chunks_outcome(r: (Result<Vec<u8>, DecodeError>, usize)) -> (
    Result<Seq<u8>, DecodeError>,
    int,
) {
    (
        match r.0 {
            Ok(bytes) => Ok(bytes@),
            Err(e) => Err(e),
        },
        r.1 as int,
    )
}

/// At the end of the input a run that expects nothing more is complete, and
/// any other run is `Truncated`.
pub proof fn lemma_run_at_end(
    s: Seq<u8>,
    pos: int,
    depth: nat,
    cfg: Config,
    until_break: bool,
    remaining: nat,
    acc: Seq<CborItemView>,
)
    requires
        pos >= s.len(),
    ensures
        items_at(s, pos, depth, cfg, until_break, remaining, acc) == if !until_break && remaining
            == 0 {
            (Ok::<Seq<CborItemView>, DecodeError>(acc), pos)
        } else {
            (Err::<Seq<CborItemView>, DecodeError>(DecodeError::Truncated), pos)
        },
{
    assert(parse_head(s, pos) == Ok::<Option<CborHead>, DecodeError>(None));
    assert(step_at(s, pos, depth, cfg, until_break) == (
        Err::<Option<CborItemView>, DecodeError>(DecodeError::Truncated),
        pos,
    ));
}

/// Gives the value of a head of major type 7.
pub fn decode_simple(head: &CborHead) -> (value: CborValue)
    ensures
        value.view() == simple_value(*head),
{
    let ai: u8 = head.additional_info;
    if ai == SIMPLE_FALSE {
        CborValue::Boolean(false)
    } else if ai == SIMPLE_TRUE {
        CborValue::Boolean(true)
    } else if ai == SIMPLE_NULL {
        CborValue::Null
    } else if ai == SIMPLE_UNDEFINED {
        CborValue::Undefined
    } else if ai == AI_2BYTES {
        CborValue::Float16(f16_to_f32(#[verifier::truncate] (head.argument as u16)))
    } else if ai == AI_4BYTES {
        CborValue::Float32(#[verifier::truncate] (head.argument as u32))
    } else if ai == AI_8BYTES {
        CborValue::Float64(head.argument)
    } else if ai == AI_INDEFINITE {
        CborValue::Break
    } else {
        CborValue::Simple(#[verifier::truncate] (head.argument as u8))
    }
}

/// Gives the value of a text string with the given bytes.
pub fn decode_text(bytes: Vec<u8>) -> (value: CborValue)
    ensures
        value.view() == text_value(bytes@),
{
    match string_from_utf8(bytes.as_slice()) {
        Some(text) => CborValue::Text(text),
        None => CborValue::InvalidText(bytes),
    }
}

/// Reads the chunks of an indefinite-length string of major type `major` up
/// to the break marker and returns their bytes in one.
pub fn decode_chunks(input: &[u8], pos: usize, major: u8) -> (r: (
    Result<Vec<u8>, DecodeError>,
    usize,
))
    requires
        pos <= input@.len(),
    ensures
        chunks_outcome(r) == chunks_at(input@, pos as int, major, Seq::empty()),
        pos <= r.1 <= input@.len(),
{
    let mut bytes: Vec<u8> = Vec::new();
    let mut p: usize = pos;
    assert(input@.len() == input.len());
    loop
        invariant
            pos <= p <= input@.len() <= usize::MAX,
            chunks_at(input@, pos as int, major, Seq::empty()) == chunks_at(
                input@,
                p as int,
                major,
                bytes@,
            ),
        decreases input@.len() - p,
    {
        match read_head(input, p) {
            Err(e) => {
                return (Err(e), p);
            },
            Ok(None) => {
                return (Err(DecodeError::Truncated), p);
            },
            Ok(Some(head)) => {
                let start: usize = p + head.size;
                if head.is_break_marker() {
                    return (Ok(bytes), start);
                }
                if head.major_type != major {
                    return (Err(DecodeError::ChunkTypeMismatch), p);
                }
                if head.is_indefinite() {
                    return (Err(DecodeError::NestedIndefiniteChunk), p);
                }
                if head.argument > (input.len() - start) as u64 {
                    return (Err(DecodeError::Truncated), start);
                }
                let n: usize = head.argument as usize;
                let mut chunk: Vec<u8> = copy_range(input, start, n);
                bytes.append(&mut chunk);
                p = start + n;
            },
        }
    }
}

/// Decodes the value of the item with head `head`, whose payload starts at
/// `pos`, and returns it with the position at which reading stopped.
pub fn decode_value(input: &[u8], head: &CborHead, pos: usize, depth: usize, config: &Config) -> (r:
    (Result<CborValue, DecodeError>, usize))
    requires
        pos <= input@.len(),
        depth + (input@.len() - pos) <= usize::MAX,
    ensures
        value_outcome(r) == value_at(input@, *head, pos as int, depth as nat, *config),
        pos <= r.1 <= input@.len(),
    decreases input@.len() - pos, config.limited(), 2int,
{
    let major: u8 = head.major_type;
    let ai: u8 = head.additional_info;
    if major > 7 {
        return (Err(DecodeError::InvalidMajorType), pos);
    }
    let indefinite: bool = ai == AI_INDEFINITE;
    if ai > 31 || (28 <= ai && ai <= 30) || (indefinite && (major == MAJOR_UNSIGNED || major
        == MAJOR_NEGATIVE || major == MAJOR_TAG)) {
        return (Err(DecodeError::InvalidAdditionalInfo), pos);
    }
    let left: usize = input.len() - pos;
    let string: bool = (major == MAJOR_BYTES || major == MAJOR_TEXT) && !indefinite;
    if string && head.argument > left as u64 {
        return (Err(DecodeError::Truncated), pos);
    }
    let length: usize = if string {
        head.argument as usize
    } else {
        0
    };
    if config.skip_beyond_max_nest && depth > config.max_nest_level {
        if string {
            return (Ok(CborValue::NestingExceeded), pos + length);
        }
        let open = config.without_limit();
        let (walked, end) = decode_value(input, head, pos, depth, &open);
        return match walked {
            Ok(_) => (Ok(CborValue::NestingExceeded), end),
            Err(e) => (Err(e), end),
        };
    }
    if major == MAJOR_UNSIGNED {
        (Ok(CborValue::Unsigned(head.argument)), pos)
    } else if major == MAJOR_NEGATIVE {
        (Ok(CborValue::Negative(-1 - head.argument as i128)), pos)
    } else if major == MAJOR_BYTES {
        if indefinite {
            let (r, p) = decode_chunks(input, pos, MAJOR_BYTES);
            match r {
                Ok(bytes) => (Ok(CborValue::Bytes(bytes)), p),
                Err(e) => (Err(e), p),
            }
        } else {
            (Ok(CborValue::Bytes(copy_range(input, pos, length))), pos + length)
        }
    } else if major == MAJOR_TEXT {
        if indefinite {
            let (r, p) = decode_chunks(input, pos, MAJOR_TEXT);
            match r {
                Ok(bytes) => (Ok(decode_text(bytes)), p),
                Err(e) => (Err(e), p),
            }
        } else {
            (Ok(decode_text(copy_range(input, pos, length))), pos + length)
        }
    } else if major == MAJOR_ARRAY {
        if left == 0 {
            proof {
                lemma_run_at_end(
                    input@,
                    pos as int,
                    (depth + 1) as nat,
                    *config,
                    indefinite,
                    head.argument as nat,
                    Seq::empty(),
                );
            }
            if !indefinite && head.argument == 0 {
                let items: Vec<CborItem> = Vec::new();
                let value = CborValue::Array(items);
                assert(value.view()->Array_0 =~= Seq::<CborItemView>::empty());
                return (Ok(value), pos);
            }
            return (Err(DecodeError::Truncated), pos);
        }
        let (r, p) = decode_items(input, pos, depth + 1, config, indefinite, head.argument);
        match r {
            Ok(items) => {
                let ghost views = items_view(items@);
                let value = CborValue::Array(items);
                assert(value.view()->Array_0 =~= views);
                (Ok(value), p)
            },
            Err(e) => (Err(e), p),
        }
    } else if major == MAJOR_MAP {
        if left == 0 {
            proof {
                lemma_run_at_end(
                    input@,
                    pos as int,
                    (depth + 1) as nat,
                    *config,
                    indefinite,
                    2 * head.argument as nat,
                    Seq::empty(),
                );
            }
            if !indefinite && head.argument == 0 {
                let pairs: Vec<(CborItem, CborItem)> = Vec::new();
                let value = CborValue::Pairs(pairs);
                assert(value.view()->Pairs_0 =~= paired(Seq::<CborItemView>::empty()));
                return (Ok(value), pos);
            }
            return (Err(DecodeError::Truncated), pos);
        }
        let (r, p) = decode_pairs(input, pos, depth + 1, config, indefinite, head.argument);
        match r {
            Ok(pairs) => {
                let ghost views = pairs_view(pairs@);
                let value = CborValue::Pairs(pairs);
                assert(value.view()->Pairs_0 =~= views);
                (Ok(value), p)
            },
            Err(e) => (Err(e), p),
        }
    } else if major == MAJOR_TAG {
        if left == 0 {
            proof {
                lemma_run_at_end(
                    input@,
                    pos as int,
                    (depth + 1) as nat,
                    *config,
                    false,
                    1,
                    Seq::empty(),
                );
            }
            return (Err(DecodeError::Truncated), pos);
        }
        let (r, p) = decode_step(input, pos, depth + 1, config, false);
        let ghost run = items_at(
            input@,
            pos as int,
            (depth + 1) as nat,
            *config,
            false,
            1,
            Seq::empty(),
        );
        match r {
            Ok(Some(item)) => {
                proof {
                    let one = Seq::<CborItemView>::empty().push(item.view());
                    assert(items_at(
                        input@,
                        p as int,
                        (depth + 1) as nat,
                        *config,
                        false,
                        0,
                        one,
                    ) == (Ok::<Seq<CborItemView>, DecodeError>(one), p as int));
                    assert(run == (Ok::<Seq<CborItemView>, DecodeError>(one), p as int));
                    assert(one[0] == item.view());
                }
                (Ok(CborValue::Tag(head.argument, Box::new(item))), p)
            },
            Ok(None) => (Err(DecodeError::Truncated), p),
            Err(e) => {
                assert(run == (Err::<Seq<CborItemView>, DecodeError>(e), p as int));
                (Err(e), p)
            },
        }
    } else {
        (Ok(decode_simple(head)), pos)
    }
}

/// Decodes the next item of a run at nesting level `depth` and returns it
/// with the position at which reading stopped; `Ok(None)` for a break marker
/// where the run ends at one.
pub fn decode_step(input: &[u8], pos: usize, depth: usize, config: &Config, until_break: bool)
    -> (r: (Result<Option<CborItem>, DecodeError>, usize))
    requires
        pos <= input@.len(),
        depth + (input@.len() - pos) <= usize::MAX + 1,
    ensures
        item_outcome(r) == step_at(input@, pos as int, depth as nat, *config, until_break),
        pos <= r.1 <= input@.len(),
        r.0 is Ok ==> pos < r.1,
        r.0 matches Ok(None) ==> until_break,
    decreases input@.len() - pos, config.limited(), 0int,
{
    assert(input@.len() == input.len());
    match read_head(input, pos) {
        Err(e) => (Err(e), pos),
        Ok(None) => (Err(DecodeError::Truncated), pos),
        Ok(Some(head)) => {
            let start: usize = pos + head.size;
            if until_break && head.is_break_marker() {
                return (Ok(None), start);
            }
            let (r, p) = decode_value(input, &head, start, depth, config);
            match r {
                Err(e) => (Err(e), p),
                Ok(value) => (
                    Ok(
                        Some(
                            CborItem {
                                major_type: head.major_type,
                                additional_info: head.additional_info,
                                value,
                                raw_bytes: copy_range(input, pos, head.size),
                                offset: pos,
                                end: p,
                            },
                        ),
                    ),
                    p,
                ),
            }
        },
    }
}

/// Decodes a run of items at nesting level `depth`: `count` items, or with
/// `until_break` those up to the break marker. Returns them with the
/// position at which reading stopped.
pub fn decode_items(
    input: &[u8],
    pos: usize,
    depth: usize,
    config: &Config,
    until_break: bool,
    count: u64,
) -> (r: (Result<Vec<CborItem>, DecodeError>, usize))
    requires
        pos <= input@.len(),
        depth + (input@.len() - pos) <= usize::MAX + 1,
    ensures
        items_outcome(r) == items_at(
            input@,
            pos as int,
            depth as nat,
            *config,
            until_break,
            count as nat,
            Seq::empty(),
        ),
        pos <= r.1 <= input@.len(),
    decreases input@.len() - pos, config.limited(), 1int,
{
    let mut items: Vec<CborItem> = Vec::new();
    let mut p: usize = pos;
    let mut left: u64 = count;
    assert(items_view(items@) =~= Seq::<CborItemView>::empty());
    loop
        invariant
            pos <= p <= input@.len(),
            depth + (input@.len() - pos) <= usize::MAX + 1,
            items_at(
                input@,
                pos as int,
                depth as nat,
                *config,
                until_break,
                count as nat,
                Seq::empty(),
            ) == items_at(
                input@,
                p as int,
                depth as nat,
                *config,
                until_break,
                left as nat,
                items_view(items@),
            ),
        decreases input@.len() - p,
    {
        if !until_break && left == 0 {
            return (Ok(items), p);
        }
        let (r, q) = decode_step(input, p, depth, config, until_break);
        match r {
            Err(e) => {
                return (Err(e), q);
            },
            Ok(None) => {
                return (Ok(items), q);
            },
            Ok(Some(item)) => {
                let ghost before = items_view(items@);
                let ghost view = item.view();
                items.push(item);
                assert(items_view(items@) =~= before.push(view));
                p = q;
                if !until_break {
                    left = left - 1;
                }
            },
        }
    }
}

/// The mathematical value of what `decode_pairs` returns.
pub open spec fn pairs_outcome(r: (Result<Vec<(CborItem, CborItem)>, DecodeError>, usize)) -> (
    Result<CborValueView, DecodeError>,
    int,
) {
    (
        match r.0 {
            Ok(pairs) => Ok(CborValueView::Pairs(pairs_view(pairs@))),
            Err(e) => Err(e),
        },
        r.1 as int,
    )
}

/// Decodes the keys and values of a map at nesting level `depth`: `count`
/// pairs, or with `until_break` those up to the break marker. Returns them
/// with the position at which reading stopped.
pub fn decode_pairs(
    input: &[u8],
    pos: usize,
    depth: usize,
    config: &Config,
    until_break: bool,
    count: u64,
) -> (r: (Result<Vec<(CborItem, CborItem)>, DecodeError>, usize))
    requires
        pos <= input@.len(),
        depth + (input@.len() - pos) <= usize::MAX + 1,
    ensures
        pairs_outcome(r) == pair_up(
            items_at(
                input@,
                pos as int,
                depth as nat,
                *config,
                until_break,
                2 * count as nat,
                Seq::empty(),
            ),
        ),
        pos <= r.1 <= input@.len(),
    decreases input@.len() - pos, config.limited(), 1int,
{
    let mut pairs: Vec<(CborItem, CborItem)> = Vec::new();
    let mut p: usize = pos;
    let mut left: u64 = count;
    let ghost mut flat: Seq<CborItemView> = Seq::empty();
    assert(pairs_view(pairs@) =~= paired(flat));
    loop
        invariant
            pos <= p <= input@.len(),
            depth + (input@.len() - pos) <= usize::MAX + 1,
            flat.len() == 2 * pairs@.len(),
            pairs_view(pairs@) == paired(flat),
            items_at(
                input@,
                pos as int,
                depth as nat,
                *config,
                until_break,
                2 * count as nat,
                Seq::empty(),
            ) == items_at(
                input@,
                p as int,
                depth as nat,
                *config,
                until_break,
                2 * left as nat,
                flat,
            ),
        decreases input@.len() - p,
    {
        if !until_break && left == 0 {
            return (Ok(pairs), p);
        }
        let (r1, q1) = decode_step(input, p, depth, config, until_break);
        let key = match r1 {
            Err(e) => {
                return (Err(e), q1);
            },
            Ok(None) => {
                return (Ok(pairs), q1);
            },
            Ok(Some(item)) => item,
        };
        let ghost with_key = flat.push(key.view());
        let ghost after_key: nat = if until_break {
            2 * left as nat
        } else {
            (2 * left - 1) as nat
        };
        let ghost after_value: nat = if until_break {
            2 * left as nat
        } else {
            (2 * left - 2) as nat
        };
        assert(items_at(
            input@,
            p as int,
            depth as nat,
            *config,
            until_break,
            2 * left as nat,
            flat,
        ) == items_at(input@, q1 as int, depth as nat, *config, until_break, after_key, with_key));
        let (r2, q2) = decode_step(input, q1, depth, config, until_break);
        let value = match r2 {
            Err(e) => {
                return (Err(e), q2);
            },
            Ok(None) => {
                return (Err(DecodeError::DanglingMapKey), q2);
            },
            Ok(Some(item)) => item,
        };
        proof {
            let before = pairs_view(pairs@);
            let with_value = with_key.push(value.view());
            assert(items_at(
                input@,
                q1 as int,
                depth as nat,
                *config,
                until_break,
                after_key,
                with_key,
            ) == items_at(
                input@,
                q2 as int,
                depth as nat,
                *config,
                until_break,
                after_value,
                with_value,
            ));
            assert(paired(with_value) =~= before.push((key.view(), value.view())));
            flat = with_value;
        }
        let ghost before = pairs_view(pairs@);
        let ghost pair_view = (key.view(), value.view());
        pairs.push((key, value));
        assert(pairs_view(pairs@) =~= before.push(pair_view));
        p = q2;
        if !until_break {
            left = left - 1;
        }
    }
}

/// Decodes the item that starts at `pos`, head and value, and returns it
/// with the position at which reading stopped.
pub fn decode_item(input: &[u8], pos: usize, depth: usize, config: &Config) -> (r: (
    Result<Option<CborItem>, DecodeError>,
    usize,
))
    requires
        pos <= input@.len(),
        depth + (input@.len() - pos) <= usize::MAX,
    ensures
        item_outcome(r) == item_at(input@, pos as int, depth as nat, *config),
        pos <= r.1 <= input@.len(),
        r.0 matches Ok(Some(_)) ==> pos < r.1,
        r.0 matches Ok(None) ==> pos == input@.len(),
{
    assert(input@.len() == input.len());
    match read_head(input, pos) {
        Err(e) => (Err(e), pos),
        Ok(None) => (Ok(None), pos),
        Ok(Some(head)) => {
            let start: usize = pos + head.size;
            let (r, p) = decode_value(input, &head, start, depth, config);
            match r {
                Err(e) => (Err(e), p),
                Ok(value) => (
                    Ok(
                        Some(
                            CborItem {
                                major_type: head.major_type,
                                additional_info: head.additional_info,
                                value,
                                raw_bytes: copy_range(input, pos, head.size),
                                offset: pos,
                                end: p,
                            },
                        ),
                    ),
                    p,
                ),
            }
        },
    }
}

} // verus!
