//! Decoded items.

use vstd::prelude::*;

verus! {

/// What an item holds.
#[derive(Debug, PartialEq, Eq)]
pub enum CborValue {
    /// An unsigned integer.
    Unsigned(u64),
    /// A negative integer: -1 minus the argument of the head.
    Negative(i128),
    /// A byte string; of an indefinite-length string, its chunks in one.
    Bytes(Vec<u8>),
    /// A text string; of an indefinite-length string, its chunks in one.
    Text(String),
    /// The items of an array.
    Array(Vec<CborItem>),
    /// The keys of a map, each with its value.
    Pairs(Vec<(CborItem, CborItem)>),
    /// A tag number and the item that it is about.
    Tag(u64, Box<CborItem>),
    /// A simple value that has no meaning assigned.
    Simple(u8),
    /// `false` or `true`.
    Boolean(bool),
    /// The null value.
    Null,
    /// The undefined value.
    Undefined,
    /// A half-precision number, as the bits of the single-precision number
    /// that stands for it.
    Float16(u32),
    /// A single-precision number, as its bits.
    Float32(u32),
    /// A double-precision number, as its bits.
    Float64(u64),
    /// A break marker that closes nothing.
    Break,
    /// The bytes of a text string that is not well-formed UTF-8.
    InvalidText(Vec<u8>),
    /// An item below the deepest level that is decoded; it ends where the item
    /// ends, and nothing of what it holds is kept.
    NestingExceeded,
}

/// One decoded item with the place it was read from.
#[derive(Debug, PartialEq, Eq)]
pub struct CborItem {
    /// Major type of the head.
    pub major_type: u8,
    /// Additional information of the head.
    pub additional_info: u8,
    /// What the item holds.
    pub value: CborValue,
    /// The bytes of the head as they were read.
    pub raw_bytes: Vec<u8>,
    /// Offset of the initial byte.
    pub offset: usize,
    /// Offset just past the last byte read for this item.
    pub end: usize,
}

/// The mathematical value of what an item holds.
pub enum CborValueView {
    Unsigned(u64),
    Negative(int),
    Bytes(Seq<u8>),
    Text(Seq<char>),
    Array(Seq<CborItemView>),
    Pairs(Seq<(CborItemView, CborItemView)>),
    Tag(u64, Box<CborItemView>),
    Simple(u8),
    Boolean(bool),
    Null,
    Undefined,
    Float16(u32),
    Float32(u32),
    Float64(u64),
    Break,
    InvalidText(Seq<u8>),
    NestingExceeded,
}

/// The mathematical value of a decoded item.
pub struct CborItemView {
    pub major_type: u8,
    pub additional_info: u8,
    pub value: CborValueView,
    pub raw_bytes: Seq<u8>,
    pub offset: nat,
    pub end: nat,
}

impl CborValue {
    /// The mathematical value: numbers without bounds, sequences for vectors
    /// and strings, and the same of every nested item.
    pub open spec fn view(&self) -> CborValueView
        decreases self,
    {
        match self {
            CborValue::Unsigned(n) => CborValueView::Unsigned(*n),
            CborValue::Negative(n) => CborValueView::Negative(*n as int),
            CborValue::Bytes(b) => CborValueView::Bytes(b@),
            CborValue::Text(t) => CborValueView::Text(t@),
            CborValue::Array(items) => CborValueView::Array(
                Seq::new(
                    items@.len(),
                    |i: int|
                        if 0 <= i < items@.len() {
                            items@[i].view()
                        } else {
                            arbitrary()
                        },
                ),
            ),
            CborValue::Pairs(pairs) => CborValueView::Pairs(
                Seq::new(
                    pairs@.len(),
                    |i: int|
                        if 0 <= i < pairs@.len() {
                            (pairs@[i].0.view(), pairs@[i].1.view())
                        } else {
                            arbitrary()
                        },
                ),
            ),
            CborValue::Tag(n, item) => CborValueView::Tag(*n, Box::new(item.view())),
            CborValue::Simple(n) => CborValueView::Simple(*n),
            CborValue::Boolean(b) => CborValueView::Boolean(*b),
            CborValue::Null => CborValueView::Null,
            CborValue::Undefined => CborValueView::Undefined,
            CborValue::Float16(bits) => CborValueView::Float16(*bits),
            CborValue::Float32(bits) => CborValueView::Float32(*bits),
            CborValue::Float64(bits) => CborValueView::Float64(*bits),
            CborValue::Break => CborValueView::Break,
            CborValue::InvalidText(b) => CborValueView::InvalidText(b@),
            CborValue::NestingExceeded => CborValueView::NestingExceeded,
        }
    }
}

impl CborItem {
    /// The mathematical value of the item.
    pub open spec fn view(&self) -> CborItemView
        decreases self,
    {
        CborItemView {
            major_type: self.major_type,
            additional_info: self.additional_info,
            value: self.value.view(),
            raw_bytes: self.raw_bytes@,
            offset: self.offset as nat,
            end: self.end as nat,
        }
    }

    /// An item with the given head fields and value, not tied to any input:
    /// no head bytes, offsets 0.
    pub fn new(major_type: u8, additional_info: u8, value: CborValue) -> (item: CborItem)
        ensures
            item.view() == (CborItemView {
                major_type,
                additional_info,
                value: value.view(),
                raw_bytes: Seq::<u8>::empty(),
                offset: 0,
                end: 0,
            }),
    {
        CborItem { major_type, additional_info, value, raw_bytes: Vec::new(), offset: 0, end: 0 }
    }
}

/// The views of a vector of items, in order.
pub open spec fn items_view(items: Seq<CborItem>) -> Seq<CborItemView> {
    Seq::new(items.len(), |i: int| items[i].view())
}

/// The views of a vector of pairs, in order.
pub open spec fn pairs_view(pairs: Seq<(CborItem, CborItem)>) -> Seq<(CborItemView, CborItemView)> {
    Seq::new(pairs.len(), |i: int| (pairs[i].0.view(), pairs[i].1.view()))
}

/// The items of a sequence taken two by two; a last item without a partner
/// is left out.
pub open spec fn paired(flat: Seq<CborItemView>) -> Seq<(CborItemView, CborItemView)> {
    Seq::new(flat.len() / 2, |i: int| (flat[2 * i], flat[2 * i + 1]))
}

} // verus!
