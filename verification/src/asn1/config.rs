//! Options of the tag-length-value decoder and of what is shown of its
//! results.

use vstd::prelude::*;

verus! {

/// Options of the decoder and of the display.
#[derive(Debug, Clone, Copy)]
pub struct Config {
    /// Align columns with dots.
    pub print_dots: bool,
    /// Leave out offsets and lengths on the left.
    pub do_pure: bool,
    /// 0: no header dump; 1: dump the header; 2: the header and the first
    /// bytes of the content.
    pub dump_header: u8,
    /// Show more about object identifiers.
    pub extra_oid_info: bool,
    /// Show sizes and offsets in hexadecimal.
    pub do_hex_values: bool,
    /// Accept an empty payload where the type needs content, and give the
    /// type's default in its place.
    pub zero_length_allowed: bool,
    /// Show text beside hex data.
    pub dump_text: bool,
    /// Show payloads in full, however long.
    pub print_all_data: bool,
    /// Look for encapsulated data in strings.
    pub check_encaps: bool,
    /// Show an octet string as text where all of it is printable.
    pub check_charset: bool,
    /// Show time values as they are written.
    pub raw_time_string: bool,
    /// Indent by one space per level, not two.
    pub shallow_indent: bool,
    /// Width of the output in characters.
    pub output_width: usize,
    /// Deepest nesting level that is decoded; the outermost units are at
    /// level 0.
    pub max_nest_level: usize,
    /// Show the outline of constructed units only.
    pub do_outline_only: bool,
    /// Say more about what is done.
    pub verbose: bool,
    /// Show the offset of each unit.
    pub print_offset: bool,
    /// The most payload bytes shown of one unit, unless `print_all_data`.
    pub max_bytes_display: usize,
    /// Count a length that is not in its shortest form as a warning.
    pub warn_non_canonical: bool,
    /// Keep nothing of the units below `max_nest_level`: each is passed over
    /// or walked to its end, and stands in the result as a unit without a
    /// value. When unset, units are decoded at any depth.
    pub skip_beyond_max_nest: bool,
}

impl Config {
    /// The options that apply when none is given.
    pub open spec fn initial() -> Config {
        Config {
            print_dots: false,
            do_pure: false,
            dump_header: 0,
            extra_oid_info: false,
            do_hex_values: false,
            zero_length_allowed: false,
            dump_text: false,
            print_all_data: false,
            check_encaps: true,
            check_charset: true,
            raw_time_string: false,
            shallow_indent: false,
            output_width: 80,
            max_nest_level: 100,
            do_outline_only: false,
            verbose: false,
            print_offset: true,
            max_bytes_display: 384,
            warn_non_canonical: true,
            skip_beyond_max_nest: true,
        }
    }

    /// A unit at `depth` is left undecoded.
    pub open spec fn cuts_off(self, depth: nat) -> bool {
        self.skip_beyond_max_nest && depth > self.max_nest_level
    }

    /// The same options without the nesting limit.
    pub open spec fn unlimited(self) -> Config {
        Config { skip_beyond_max_nest: false, ..self }
    }

    /// 1 for options with a nesting limit, 0 for options without one.
    pub open spec fn limited(self) -> int {
        if self.skip_beyond_max_nest {
            1
        } else {
            0
        }
    }

    /// Gives the same options without the nesting limit.
    pub fn without_limit(&self) -> (open: Config)
        ensures
            open == self.unlimited(),
    {
        Config { skip_beyond_max_nest: false, ..*self }
    }
}

impl Default for Config {
    fn default() -> (config: Config)
        ensures
            config == Config::initial(),
    {
        Config {
            print_dots: false,
            do_pure: false,
            dump_header: 0,
            extra_oid_info: false,
            do_hex_values: false,
            zero_length_allowed: false,
            dump_text: false,
            print_all_data: false,
            check_encaps: true,
            check_charset: true,
            raw_time_string: false,
            shallow_indent: false,
            output_width: 80,
            max_nest_level: 100,
            do_outline_only: false,
            verbose: false,
            print_offset: true,
            max_bytes_display: 384,
            warn_non_canonical: true,
            skip_beyond_max_nest: true,
        }
    }
}

} // verus!
