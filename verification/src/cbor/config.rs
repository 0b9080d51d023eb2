//! Options of the CBOR decoder and of what is shown of its results.

use vstd::prelude::*;

verus! {

/// Options of the decoder and of the display.
#[derive(Debug, Clone, Copy)]
pub struct Config {
    /// Show a hex dump of every byte string, however long.
    pub print_hex: bool,
    /// The most bytes shown of one byte string, unless `print_all_data`.
    pub max_bytes_display: usize,
    /// Deepest nesting level that is decoded; the outermost items are at
    /// level 0.
    pub max_nest_level: usize,
    /// Look for encoded items inside byte strings.
    pub decode_nested: bool,
    /// Show the offset of each item.
    pub show_offsets: bool,
    /// Say more about what is done.
    pub verbose: bool,
    /// Leave out indentation and separators.
    pub compact: bool,
    /// Show strings in full, however long.
    pub print_all_data: bool,
    /// Show offsets in hexadecimal.
    pub hex_values: bool,
    /// Show the name of each item's type.
    pub show_types: bool,
    /// Keep nothing of the items below `max_nest_level`: each is passed over
    /// or walked to its end, and stands in the result as an item without a
    /// value. When unset, items are decoded at any depth.
    pub skip_beyond_max_nest: bool,
}

impl Config {
    /// The options that apply when none is given.
    pub open spec fn initial() -> Config {
        Config {
            print_hex: false,
            max_bytes_display: 384,
            max_nest_level: 100,
            decode_nested: true,
            show_offsets: false,
            verbose: false,
            compact: false,
            print_all_data: false,
            hex_values: false,
            show_types: true,
            skip_beyond_max_nest: true,
        }
    }

    /// An item at `depth` is left undecoded.
    pub open spec fn cuts_off(self, depth: nat) -> bool {
        self.skip_beyond_max_nest && depth > self.max_nest_level
    }

    /// The same options without the nesting limit.
    pub open spec fn unlimited(self) -> Config {
        Config { skip_beyond_max_nest: false, ..self }
    }

    /// 1 for options with a nesting limit, 0 for options without one.
    pub open spec fn limited(self) -> int {
        if self.skip_beyond_max_nest {
            1
        } else {
            0
        }
    }

    /// Gives the same options without the nesting limit.
    pub fn without_limit(&self) -> (open: Config)
        ensures
            open == self.unlimited(),
    {
        Config { skip_beyond_max_nest: false, ..*self }
    }
}

impl Default for Config {
    fn default() -> (config: Config)
        ensures
            config == Config::initial(),
    {
        Config {
            print_hex: false,
            max_bytes_display: 384,
            max_nest_level: 100,
            decode_nested: true,
            show_offsets: false,
            verbose: false,
            compact: false,
            print_all_data: false,
            hex_values: false,
            show_types: true,
            skip_beyond_max_nest: true,
        }
    }
}

} // verus!
