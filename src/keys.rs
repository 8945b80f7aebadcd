//! Names of key chords, as keybindings refer to them.
use vstd::prelude::*;
use crate::text::{push_str_chars, string_of};

verus! {

/// The name that stands for `c` after a modifier prefix.
pub open spec fn key_char_name(c: char) -> Seq<char> {
    if c == '\u{7f}' {
        seq!['b', 'a', 'c', 'k', 's', 'p', 'a', 'c', 'e']
    } else if c == '\u{1b}' {
        seq!['e', 's', 'c', 'a', 'p', 'e']
    } else {
        seq![c]
    }
}

/// Converts a key combination to its human-readable name: the prefix, then
/// `backspace` for 0x7f, `escape` for 0x1b, or the character itself.
pub fn human_key(prefix: &str, c: char) -> (r: String)
    ensures
        r@ == prefix@ + key_char_name(c),
{
    let mut out: Vec<char> = Vec::new();
    push_str_chars(&mut out, prefix);
    if c == '\u{7f}' {
        proof { reveal_strlit("backspace"); }
        push_str_chars(&mut out, "backspace");
    } else if c == '\u{1b}' {
        proof { reveal_strlit("escape"); }
        push_str_chars(&mut out, "escape");
    } else {
        out.push(c);
    }
    string_of(out.as_slice())
}

} // verus!
