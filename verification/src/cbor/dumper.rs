//! The decoder's state: options, position and the counts of what went
//! wrong.

use crate::cbor::config::Config;
use crate::cbor::decode::{decode_item, item_at, item_outcome};
use crate::cbor::head::{argument_width, parse_additional, read_argument};
use crate::cbor::laws::{exact, items_exact, law_dump_is_exact, law_items_are_exact, no_failure};
use crate::cbor::tags::{
    known_tag_name, name_text, TAG_BASE16, TAG_BASE64, TAG_BASE64URL, TAG_BASE64URL_ENC,
    TAG_BASE64_ENC, TAG_BIGFLOAT, TAG_BIGNUM_NEG, TAG_BIGNUM_POS, TAG_CBOR, TAG_DATETIME,
    TAG_DECIMAL, TAG_EPOCH, TAG_MIME, TAG_REGEX, TAG_SELF_DESCRIBE, TAG_URI,
};
use crate::cbor::value::{items_view, pairs_view, CborItem, CborItemView, CborValue, CborValueView};
use crate::diagnostics::capped;
use crate::error::DecodeError;
use vstd::prelude::*;

verus! {

/// What a value counts for by itself: with `errors`, one for a text string
/// that is not well-formed UTF-8; without, one warning for a simple value
/// that has no meaning assigned.
pub open spec fn own_count(v: CborValueView, errors: bool) -> nat {
    if errors {
        if v is InvalidText {
            1
        } else {
            0
        }
    } else {
        if v is Simple {
            1
        } else {
            0
        }
    }
}

/// The errors, or else the warnings, that a value counts for: its own and
/// those of the items nested in it.
pub open spec fn value_count(v: CborValueView, errors: bool) -> nat
    decreases v,
{
    match v {
        CborValueView::Array(items) => items_count(items, errors),
        CborValueView::Pairs(pairs) => pairs_count(pairs, errors),
        CborValueView::Tag(_, item) => value_count(item.value, errors),
        _ => own_count(v, errors),
    }
}

/// The errors, or else the warnings, that a run of items counts for.
pub open spec fn items_count(items: Seq<CborItemView>, errors: bool) -> nat
    decreases items,
{
    if items.len() == 0 {
        0
    } else {
        items_count(items.drop_last(), errors) + value_count(items.last().value, errors)
    }
}

/// The errors, or else the warnings, that the keys and values of a map
/// count for.
pub open spec fn pairs_count(pairs: Seq<(CborItemView, CborItemView)>, errors: bool) -> nat
    decreases pairs,
{
    if pairs.len() == 0 {
        0
    } else {
        pairs_count(pairs.drop_last(), errors) + value_count(pairs.last().0.value, errors)
            + value_count(pairs.last().1.value, errors)
    }
}

/// Counts the errors and warnings of a value, each capped at `usize::MAX`.
pub fn tally_value(value: &CborValue) -> (r: (usize, usize))
    ensures
        r.0 == capped(value_count(value.view(), true) as int),
        r.1 == capped(value_count(value.view(), false) as int),
    decreases value,
{
    match value {
        CborValue::InvalidText(_) => (1, 0),
        CborValue::Simple(_) => (0, 1),
        CborValue::Tag(_, item) => tally_value(&item.value),
        CborValue::Array(items) => {
            assert(value.view()->Array_0 =~= items_view(items@));
            tally_items(items)
        },
        CborValue::Pairs(pairs) => {
            assert(value.view()->Pairs_0 =~= pairs_view(pairs@));
            tally_pairs(pairs)
        },
        _ => (0, 0),
    }
}

/// Counts the errors and warnings of a run of items, each capped at
/// `usize::MAX`.
pub fn tally_items(items: &Vec<CborItem>) -> (r: (usize, usize))
    ensures
        r.0 == capped(items_count(items_view(items@), true) as int),
        r.1 == capped(items_count(items_view(items@), false) as int),
    decreases items,
{
    let mut errors: usize = 0;
    let mut warnings: usize = 0;
    let mut i: usize = 0;
    let ghost views = items_view(items@);
    assert(views.take(0) =~= Seq::<CborItemView>::empty());
    while i < items.len()
        invariant
            i <= items@.len(),
            views == items_view(items@),
            errors == capped(items_count(views.take(i as int), true) as int),
            warnings == capped(items_count(views.take(i as int), false) as int),
        decreases items@.len() - i,
    {
        let item = &items[i];
        let (e, w) = tally_value(&item.value);
        proof {
            assert(views.take(i + 1).drop_last() =~= views.take(i as int));
            assert(views.take(i + 1).last() == item.view());
        }
        errors = errors.saturating_add(e);
        warnings = warnings.saturating_add(w);
        i = i + 1;
    }
    assert(views.take(i as int) =~= views);
    (errors, warnings)
}

/// Counts the errors and warnings of the keys and values of a map, each
/// capped at `usize::MAX`.
pub fn tally_pairs(pairs: &Vec<(CborItem, CborItem)>) -> (r: (usize, usize))
    ensures
        r.0 == capped(pairs_count(pairs_view(pairs@), true) as int),
        r.1 == capped(pairs_count(pairs_view(pairs@), false) as int),
    decreases pairs,
{
    let mut errors: usize = 0;
    let mut warnings: usize = 0;
    let mut i: usize = 0;
    let ghost views = pairs_view(pairs@);
    assert(views.take(0) =~= Seq::<(CborItemView, CborItemView)>::empty());
    while i < pairs.len()
        invariant
            i <= pairs@.len(),
            views == pairs_view(pairs@),
            errors == capped(pairs_count(views.take(i as int), true) as int),
            warnings == capped(pairs_count(views.take(i as int), false) as int),
        decreases pairs@.len() - i,
    {
        let pair = &pairs[i];
        let (e1, w1) = tally_value(&pair.0.value);
        let (e2, w2) = tally_value(&pair.1.value);
        proof {
            assert(views.take(i + 1).drop_last() =~= views.take(i as int));
            assert(views.take(i + 1).last() == (pair.0.view(), pair.1.view()));
        }
        errors = errors.saturating_add(e1).saturating_add(e2);
        warnings = warnings.saturating_add(w1).saturating_add(w2);
        i = i + 1;
    }
    assert(views.take(i as int) =~= views);
    (errors, warnings)
}

/// One step of decoding a whole input.
#[derive(Debug, PartialEq, Eq)]
pub enum CborEntry {
    /// An outermost item.
    Item(CborItem),
    /// A failure and the offset at which reading stopped.
    Failure(DecodeError, usize),
}

/// The mathematical value of a `CborEntry`.
pub enum CborEntryView {
    Item(CborItemView),
    Failure(DecodeError, nat),
}

impl CborEntry {
    /// The mathematical value of the entry.
    pub open spec fn view(&self) -> CborEntryView {
        match self {
            CborEntry::Item(item) => CborEntryView::Item(item.view()),
            CborEntry::Failure(e, at) => CborEntryView::Failure(*e, *at as nat),
        }
    }
}

/// The views of a vector of entries, in order.
pub open spec fn entries_view(entries: Seq<CborEntry>) -> Seq<CborEntryView> {
    Seq::new(entries.len(), |i: int| entries[i].view())
}

/// The failure that the entries end with, if they end with one.
pub open spec fn final_failure(entries: Seq<CborEntryView>) -> Option<(DecodeError, nat)> {
    if entries.len() == 0 {
        None
    } else {
        match entries.last() {
            CborEntryView::Failure(e, at) => Some((e, at)),
            CborEntryView::Item(_) => None,
        }
    }
}

/// The mathematical value of an optional failure with its offset.
pub open spec fn failure_view(f: Option<(DecodeError, usize)>) -> Option<(DecodeError, nat)> {
    match f {
        Some((e, at)) => Some((e, at as nat)),
        None => None,
    }
}

/// Gives the failure that the entries end with, if they end with one. A
/// dump that could not go on to the end of its input ends with the failure
/// that stopped it.
pub fn last_failure(entries: &Vec<CborEntry>) -> (f: Option<(DecodeError, usize)>)
    ensures
        failure_view(f) == final_failure(entries_view(entries@)),
{
    let n: usize = entries.len();
    if n == 0 {
        return None;
    }
    match &entries[n - 1] {
        CborEntry::Failure(e, at) => Some((*e, *at)),
        CborEntry::Item(_) => None,
    }
}

/// What a whole input decodes to from `pos` on, after the entries `acc`,
/// with the position at which decoding stopped.
///
/// Each outermost item is an entry, and so is each failure. After a failure
/// that leaves the input in step, decoding goes on where reading stopped,
/// provided that this is further on; any other failure is the last entry.
/// The test on `p` after an item says again that an item takes at least one
/// byte.
pub open spec fn dump_at(s: Seq<u8>, pos: int, cfg: Config, acc: Seq<CborEntryView>) -> (
    Seq<CborEntryView>,
    int,
)
    decreases s.len() - pos,
{
    match item_at(s, pos, 0, cfg) {
        (Ok(None), p) => (acc, p),
        (Ok(Some(item)), p) => if !(pos < p <= s.len()) {
            (acc, p)
        } else {
            dump_at(s, p, cfg, acc.push(CborEntryView::Item(item)))
        },
        (Err(e), p) => if e.recoverable() && pos < p <= s.len() {
            dump_at(s, p, cfg, acc.push(CborEntryView::Failure(e, p as nat)))
        } else {
            (acc.push(CborEntryView::Failure(e, p as nat)), p)
        },
    }
}

/// The errors, or else the warnings, that an entry counts for: those of its
/// item, or one error for a failure.
pub open spec fn entry_count(entry: CborEntryView, errors: bool) -> nat {
    match entry {
        CborEntryView::Item(item) => value_count(item.value, errors),
        CborEntryView::Failure(_, _) => if errors {
            1
        } else {
            0
        },
    }
}

/// The errors, or else the warnings, that a run of entries counts for.
pub open spec fn entries_count(entries: Seq<CborEntryView>, errors: bool) -> nat
    decreases entries.len(),
{
    if entries.len() == 0 {
        0
    } else {
        entries_count(entries.drop_last(), errors) + entry_count(entries.last(), errors)
    }
}

/// An entry appended to a run adds its own errors and warnings to those of
/// the run.
pub proof fn lemma_entries_push(entries: Seq<CborEntryView>, entry: CborEntryView, errors: bool)
    ensures
        entries_count(entries.push(entry), errors) == entries_count(entries, errors) + entry_count(
            entry,
            errors,
        ),
{
    assert(entries.push(entry).drop_last() =~= entries);
    assert(entries.push(entry).last() == entry);
}

/// Decoder state.
pub struct CborDumper {
    /// The options.
    pub config: Config,
    /// Errors counted so far; stops at `usize::MAX`.
    pub no_errors: usize,
    /// Warnings counted so far; stops at `usize::MAX`.
    pub no_warnings: usize,
    /// Offset of the next byte to read.
    pub offset: usize,
}

impl CborDumper {
    /// A decoder at offset 0 that has counted nothing.
    pub fn new(config: Config) -> (dumper: CborDumper)
        ensures
            dumper.config == config,
            dumper.no_errors == 0,
            dumper.no_warnings == 0,
            dumper.offset == 0,
    {
        CborDumper { config, no_errors: 0, no_warnings: 0, offset: 0 }
    }

    /// The number of errors counted so far.
    pub fn error_count(&self) -> (n: usize)
        ensures
            n == self.no_errors,
    {
        self.no_errors
    }

    /// The number of warnings counted so far.
    pub fn warning_count(&self) -> (n: usize)
        ensures
            n == self.no_warnings,
    {
        self.no_warnings
    }

    /// The offset of the next byte to read.
    pub fn position(&self) -> (pos: usize)
        ensures
            pos == self.offset,
    {
        self.offset
    }

    /// The name of a tag number, for those that have one.
    pub fn tag_name(&self, tag: u64) -> (name: Option<&'static str>)
        ensures
            name_text(name) == known_tag_name(tag),
    {
        if tag == TAG_DATETIME {
            Some("date/time string")
        } else if tag == TAG_EPOCH {
            Some("epoch-based date/time")
        } else if tag == TAG_BIGNUM_POS {
            Some("positive bignum")
        } else if tag == TAG_BIGNUM_NEG {
            Some("negative bignum")
        } else if tag == TAG_DECIMAL {
            Some("decimal fraction")
        } else if tag == TAG_BIGFLOAT {
            Some("bigfloat")
        } else if tag == TAG_BASE64URL {
            Some("base64url encoding")
        } else if tag == TAG_BASE64 {
            Some("base64 encoding")
        } else if tag == TAG_BASE16 {
            Some("base16 encoding")
        } else if tag == TAG_CBOR {
            Some("encoded CBOR data item")
        } else if tag == TAG_URI {
            Some("URI")
        } else if tag == TAG_BASE64URL_ENC {
            Some("base64url")
        } else if tag == TAG_BASE64_ENC {
            Some("base64")
        } else if tag == TAG_REGEX {
            Some("regular expression")
        } else if tag == TAG_MIME {
            Some("MIME message")
        } else if tag == TAG_SELF_DESCRIBE {
            Some("self-describe CBOR")
        } else {
            None
        }
    }

    /// Reads the argument that additional information `ai` stands for at the
    /// current position and moves past its bytes.
    ///
    /// On failure the position stays where it was.
    pub fn read_additional(&mut self, input: &[u8], ai: u8) -> (r: Result<u64, DecodeError>)
        ensures
            r == parse_additional(input@, old(self).offset as int, ai),
            final(self).config == old(self).config,
            final(self).no_errors == old(self).no_errors,
            final(self).no_warnings == old(self).no_warnings,
            r is Ok ==> final(self).offset == old(self).offset + argument_width(ai),
            r is Err ==> final(self).offset == old(self).offset,
    {
        assert(input@.len() == input.len());
        match read_argument(input, self.offset, ai) {
            Err(e) => Err(e),
            Ok((value, width)) => {
                if width > 0 {
                    self.offset = self.offset + width;
                }
                Ok(value)
            },
        }
    }

    /// Decodes the outermost item at the current position, moves past it
    /// and counts what went wrong in it.
    ///
    /// `Ok(None)` says that the input is used up. An item that decodes adds
    /// its errors and warnings to the counts. A failure adds one error and
    /// leaves the position at the read that failed.
    pub fn read_item(&mut self, input: &[u8]) -> (r: Result<Option<CborItem>, DecodeError>)
        ensures
            final(self).config == old(self).config,
            item_outcome((r, final(self).offset)) == item_at(
                input@,
                old(self).offset as int,
                0,
                old(self).config,
            ),
            match r {
                Ok(Some(item)) => exact(item.view(), 0, old(self).config) && old(self).offset
                    < final(self).offset <= input@.len() && final(self).no_errors == capped(old(self).no_errors + value_count(item.view().value, true))
                    && final(self).no_warnings == capped(
                    old(self).no_warnings + value_count(item.view().value, false),
                ),
                Ok(None) => final(self).no_errors == old(self).no_errors && final(self).no_warnings == old(self).no_warnings,
                Err(_) => final(self).no_errors == capped(old(self).no_errors + 1) && final(self).no_warnings == old(self).no_warnings,
            },
    {
        if self.offset > input.len() {
            return Ok(None);
        }
        proof {
            law_items_are_exact(input@, self.offset as int, 0, self.config);
        }
        let (r, p) = decode_item(input, self.offset, 0, &self.config);
        self.offset = p;
        match r {
            Err(e) => {
                self.no_errors = self.no_errors.saturating_add(1);
                Err(e)
            },
            Ok(None) => Ok(None),
            Ok(Some(item)) => {
                let (e, w) = tally_value(&item.value);
                self.no_errors = self.no_errors.saturating_add(e);
                self.no_warnings = self.no_warnings.saturating_add(w);
                Ok(Some(item))
            },
        }
    }

    /// Decodes the input from the current position to its end, or to the
    /// first failure after which it cannot go on, and counts what went
    /// wrong.
    pub fn dump_cbor(&mut self, input: &[u8]) -> (entries: Vec<CborEntry>)
        ensures
            final(self).config == old(self).config,
            ({
                let d = dump_at(input@, old(self).offset as int, old(self).config, Seq::empty());
                &&& entries_view(entries@) == d.0
                &&& final(self).offset == d.1
                &&& final(self).no_errors == capped(
                    old(self).no_errors + entries_count(d.0, true),
                )
                &&& final(self).no_warnings == capped(
                    old(self).no_warnings + entries_count(d.0, false),
                )
            }),
            old(self).offset <= input@.len() ==> {
                let views = entries_view(entries@);
                &&& items_exact(views, old(self).config)
                &&& old(self).offset <= final(self).offset <= input@.len()
                &&& no_failure(views) ==> final(self).offset == input@.len()
            },
    {
        let mut entries: Vec<CborEntry> = Vec::new();
        let ghost cfg = self.config;
        assert(entries_view(entries@) =~= Seq::<CborEntryView>::empty());
        loop
            invariant
                self.config == cfg,
                cfg == old(self).config,
                dump_at(input@, old(self).offset as int, cfg, Seq::empty()) == dump_at(
                    input@,
                    self.offset as int,
                    cfg,
                    entries_view(entries@),
                ),
                self.no_errors == capped(
                    old(self).no_errors + entries_count(entries_view(entries@), true),
                ),
                self.no_warnings == capped(
                    old(self).no_warnings + entries_count(entries_view(entries@), false),
                ),
            decreases input@.len() - self.offset,
        {
            let ghost before = entries_view(entries@);
            let here: usize = self.offset;
            proof {
                if old(self).offset <= input@.len() {
                    law_dump_is_exact(input@, old(self).offset as int, cfg, Seq::empty());
                }
            }
            match self.read_item(input) {
                Ok(None) => {
                    return entries;
                },
                Ok(Some(item)) => {
                    let entry = CborEntry::Item(item);
                    entries.push(entry);
                    proof {
                        assert(entries_view(entries@) =~= before.push(entry.view()));
                        lemma_entries_push(before, entry.view(), true);
                        lemma_entries_push(before, entry.view(), false);
                    }
                },
                Err(e) => {
                    let entry = CborEntry::Failure(e, self.offset);
                    entries.push(entry);
                    proof {
                        assert(entries_view(entries@) =~= before.push(entry.view()));
                        lemma_entries_push(before, entry.view(), true);
                        lemma_entries_push(before, entry.view(), false);
                    }
                    if !(e.is_recoverable() && here < self.offset && self.offset <= input.len()) {
                        return entries;
                    }
                },
            }
        }
    }
}

} // verus!
