//! Virtual-key mapping and hotkey-duplicate detection for the
//! desktop-overlay companion tool.

use vstd::prelude::*;

use vstd::string::StringSliceAdditionalSpecFns;

use crate::labels::{Hotkeys, KeyChord};
use crate::parse::{is_ascii_ws, spec_trim, upper_byte};

verus! {

/// A Windows-style virtual key code.
#[derive(Debug, Clone, Copy, PartialEq, Eq, Structural)]
pub struct Vk(pub u32);

/// The virtual key a key name maps to: the ASCII-uppercased first byte
/// after trimming, or `B` as a harmless default for an empty name.
pub open spec fn spec_vk(s: Seq<u8>) -> u32 {
    if spec_trim(s).len() == 0 {
        66
    } else {
        upper_byte(spec_trim(s)[0]) as u32
    }
}

/// Map a key name to its virtual key code; see [`spec_vk`].
pub fn vk_from_char(c: &str) -> (r: Vk)
    ensures
        r.0 == spec_vk(c.spec_bytes()),
{
    let bytes = c.as_bytes();
    let n = bytes.len();
    let mut start: usize = 0;
    let mut end: usize = n;
    proof {
        assert(bytes@.subrange(0, n as int) =~= bytes@);
    }
    while start < end && is_ws(bytes[start])
        invariant
            bytes@ == c.spec_bytes(),
            n == bytes@.len(),
            0 <= start <= end <= n,
            end == n,
            crate::parse::trim_front(bytes@) == crate::parse::trim_front(
                bytes@.subrange(start as int, n as int),
            ),
        decreases end - start,
    {
        proof {
            assert(bytes@.subrange(start as int, n as int).drop_first() =~= bytes@.subrange(
                start + 1,
                n as int,
            ));
        }
        start += 1;
    }
    proof {
        assert(crate::parse::trim_front(bytes@) == bytes@.subrange(start as int, n as int));
    }
    while end > start && is_ws(bytes[end - 1])
        invariant
            bytes@ == c.spec_bytes(),
            n == bytes@.len(),
            0 <= start <= end <= n,
            crate::parse::trim_front(bytes@) == bytes@.subrange(start as int, n as int),
            crate::parse::trim_back(bytes@.subrange(start as int, n as int))
                == crate::parse::trim_back(bytes@.subrange(start as int, end as int)),
        decreases end,
    {
        proof {
            assert(bytes@.subrange(start as int, end as int).drop_last() =~= bytes@.subrange(
                start as int,
                end - 1,
            ));
        }
        end -= 1;
    }
    proof {
        assert(spec_trim(bytes@) == bytes@.subrange(start as int, end as int));
    }
    if start >= end {
        return Vk(66);
    }
    let b = bytes[start];
    let b = if 97 <= b && b <= 122 {
        b - 32
    } else {
        b
    };
    Vk(b as u32)
}

/// Whether one byte is ASCII whitespace.
fn is_ws(b: u8) -> (r: bool)
    ensures
        r == is_ascii_ws(b),
{
    b == 32 || (9 <= b && b <= 13)
}

/// Byte sequences equal up to ASCII case.
pub open spec fn eq_ignore_ascii(a: Seq<u8>, b: Seq<u8>) -> bool {
    a.len() == b.len() && forall|i: int|
        0 <= i < a.len() ==> upper_byte(a[i]) == upper_byte(#[trigger] b[i])
}

/// Compare two strings byte by byte, ignoring ASCII case.
fn str_eq_ignore_case(a: &str, b: &str) -> (r: bool)
    ensures
        r == eq_ignore_ascii(a.spec_bytes(), b.spec_bytes()),
{
    let ab = a.as_bytes();
    let bb = b.as_bytes();
    if ab.len() != bb.len() {
        return false;
    }
    let mut i: usize = 0;
    while i < ab.len()
        invariant
            ab@ == a.spec_bytes(),
            bb@ == b.spec_bytes(),
            ab@.len() == bb@.len(),
            i <= ab@.len(),
            forall|j: int| 0 <= j < i ==> upper_byte(ab@[j]) == upper_byte(#[trigger] bb@[j]),
        decreases ab@.len() - i,
    {
        let x = ab[i];
        let y = bb[i];
        let xu = if 97 <= x && x <= 122 {
            x - 32
        } else {
            x
        };
        let yu = if 97 <= y && y <= 122 {
            y - 32
        } else {
            y
        };
        if xu != yu {
            return false;
        }
        i += 1;
    }
    true
}

/// Two chords collide: same modifiers and the same key name up to ASCII
/// case.
pub open spec fn spec_chord_eq(a: KeyChord, b: KeyChord) -> bool {
    &&& a.ctrl == b.ctrl
    &&& a.alt == b.alt
    &&& a.shift == b.shift
    &&& eq_ignore_ascii(
        vstd::utf8::encode_utf8(a.key@),
        vstd::utf8::encode_utf8(b.key@),
    )
}

/// Compare two chords for collision.
fn chord_eq(a: &KeyChord, b: &KeyChord) -> (r: bool)
    ensures
        r == spec_chord_eq(*a, *b),
{
    a.ctrl == b.ctrl && a.alt == b.alt && a.shift == b.shift && str_eq_ignore_case(
        a.key.as_str(),
        b.key.as_str(),
    )
}

/// Whether any two of the four configured hotkeys collide.
pub fn has_duplicates(hk: &Hotkeys) -> (r: bool)
    ensures
        r == (spec_chord_eq(hk.edit_title, hk.edit_description) || spec_chord_eq(
            hk.edit_title,
            hk.toggle_overlay,
        ) || spec_chord_eq(hk.edit_description, hk.toggle_overlay) || spec_chord_eq(
            hk.edit_title,
            hk.snap_position,
        ) || spec_chord_eq(hk.edit_description, hk.snap_position) || spec_chord_eq(
            hk.toggle_overlay,
            hk.snap_position,
        )),
{
    chord_eq(&hk.edit_title, &hk.edit_description) || chord_eq(&hk.edit_title, &hk.toggle_overlay)
        || chord_eq(&hk.edit_description, &hk.toggle_overlay) || chord_eq(
        &hk.edit_title,
        &hk.snap_position,
    ) || chord_eq(&hk.edit_description, &hk.snap_position) || chord_eq(
        &hk.toggle_overlay,
        &hk.snap_position,
    )
}

} // verus!
