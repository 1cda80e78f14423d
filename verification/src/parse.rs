//! Textual-token deck parser, for test fixtures and tools.
//!
//! A deck is written as 52 rank+suit tokens such as `"AS"`, `"TD"`, `"KC"`:
//! a rank character (`A 2-9 T J Q K`), optionally one ignored middle
//! character, and a suit character (`C D H S`), case-insensitively, with
//! surrounding ASCII whitespace allowed. Malformed or wrong-length input
//! yields `None`.

use vstd::prelude::*;

use vstd::string::StringSliceAdditionalSpecFns;

verus! {

/// ASCII whitespace, as `str::trim` removes it within the ASCII range.
pub open spec fn is_ascii_ws(b: u8) -> bool {
    b == 32 || (9 <= b <= 13)
}

/// ASCII uppercase folding of one byte.
pub open spec fn upper_byte(b: u8) -> u8 {
    if 97 <= b <= 122 {
        (b - 32) as u8
    } else {
        b
    }
}

/// The byte sequence with leading ASCII whitespace removed.
pub open spec fn trim_front(s: Seq<u8>) -> Seq<u8>
    decreases s.len(),
{
    if s.len() > 0 && is_ascii_ws(s[0]) {
        trim_front(s.drop_first())
    } else {
        s
    }
}

/// The byte sequence with trailing ASCII whitespace removed.
pub open spec fn trim_back(s: Seq<u8>) -> Seq<u8>
    decreases s.len(),
{
    if s.len() > 0 && is_ascii_ws(s.last()) {
        trim_back(s.drop_last())
    } else {
        s
    }
}

/// The byte sequence trimmed on both sides.
pub open spec fn spec_trim(s: Seq<u8>) -> Seq<u8> {
    trim_back(trim_front(s))
}

/// The rank encoded by an uppercased rank character, if any.
pub open spec fn rank_of_byte(b: u8) -> Option<u8> {
    if b == 65 {
        Option::Some(0)
    } else if 50 <= b <= 57 {
        Option::Some((b - 49) as u8)
    } else if b == 84 {
        Option::Some(9)
    } else if b == 74 {
        Option::Some(10)
    } else if b == 81 {
        Option::Some(11)
    } else if b == 75 {
        Option::Some(12)
    } else {
        Option::None
    }
}

/// The suit encoded by an uppercased suit character, if any.
pub open spec fn suit_of_byte(b: u8) -> Option<u8> {
    if b == 67 {
        Option::Some(0)
    } else if b == 68 {
        Option::Some(1)
    } else if b == 72 {
        Option::Some(2)
    } else if b == 83 {
        Option::Some(3)
    } else {
        Option::None
    }
}

/// The card code a single token parses to, if any: trim, uppercase, take
/// the first byte as the rank and the last as the suit of a 2- or 3-byte
/// token, and combine as `suit * 13 + rank`.
pub open spec fn spec_parse_card(s: Seq<u8>) -> Option<u8> {
    let t = spec_trim(s);
    if t.len() < 2 || t.len() > 3 {
        Option::None
    } else {
        match (rank_of_byte(upper_byte(t[0])), suit_of_byte(upper_byte(t.last()))) {
            (Option::Some(r), Option::Some(su)) => Option::Some((su * 13 + r) as u8),
            _ => Option::None,
        }
    }
}

/// Whether one byte is ASCII whitespace.
fn is_ws(b: u8) -> (r: bool)
    ensures
        r == is_ascii_ws(b),
{
    b == 32 || (9 <= b && b <= 13)
}

/// Parse one token; see [`spec_parse_card`].
pub fn parse_card(tok: &str) -> (r: Option<u8>)
    ensures
        r == spec_parse_card(tok.spec_bytes()),
        r is Some ==> r.unwrap() < 52,
{
    let bytes = tok.as_bytes();
    let n = bytes.len();
    let mut start: usize = 0;
    let mut end: usize = n;
    proof {
        assert(bytes@.subrange(0, n as int) =~= bytes@);
    }
    while start < end && is_ws(bytes[start])
        invariant
            bytes@ == tok.spec_bytes(),
            n == bytes@.len(),
            0 <= start <= end <= n,
            end == n,
            trim_front(bytes@) == trim_front(bytes@.subrange(start as int, n as int)),
        decreases end - start,
    {
        proof {
            assert(bytes@.subrange(start as int, n as int).drop_first() =~= bytes@.subrange(
                start + 1,
                n as int,
            ));
        }
        start += 1;
    }
    proof {
        assert(trim_front(bytes@) == bytes@.subrange(start as int, n as int));
    }
    while end > start && is_ws(bytes[end - 1])
        invariant
            bytes@ == tok.spec_bytes(),
            n == bytes@.len(),
            0 <= start <= end <= n,
            trim_front(bytes@) == bytes@.subrange(start as int, n as int),
            trim_back(bytes@.subrange(start as int, n as int)) == trim_back(
                bytes@.subrange(start as int, end as int),
            ),
        decreases end,
    {
        proof {
            assert(bytes@.subrange(start as int, end as int).drop_last() =~= bytes@.subrange(
                start as int,
                end - 1,
            ));
        }
        end -= 1;
    }
    proof {
        assert(spec_trim(bytes@) == bytes@.subrange(start as int, end as int));
    }
    let len = end - start;
    if len < 2 || len > 3 {
        return None;
    }
    let b0 = bytes[start];
    let b0 = if 97 <= b0 && b0 <= 122 {
        b0 - 32
    } else {
        b0
    };
    let b1 = bytes[end - 1];
    let b1 = if 97 <= b1 && b1 <= 122 {
        b1 - 32
    } else {
        b1
    };
    let r: u8 = if b0 == 65 {
        0
    } else if 50 <= b0 && b0 <= 57 {
        b0 - 49
    } else if b0 == 84 {
        9
    } else if b0 == 74 {
        10
    } else if b0 == 81 {
        11
    } else if b0 == 75 {
        12
    } else {
        return None;
    };
    let su: u8 = if b1 == 67 {
        0
    } else if b1 == 68 {
        1
    } else if b1 == 72 {
        2
    } else if b1 == 83 {
        3
    } else {
        return None;
    };
    Some(su * 13 + r)
}

/// Parse 52 tokens into a deck of card codes, in order; `None` on malformed
/// or wrong-length input.
pub fn parse_deck(tokens: &[&str]) -> (r: Option<Vec<u8>>)
    ensures
        r is Some <==> (tokens@.len() == 52 && forall|i: int|
            0 <= i < 52 ==> spec_parse_card((#[trigger] tokens@[i]).spec_bytes()) is Some),
        r is Some ==> {
            &&& r.unwrap()@.len() == 52
            &&& forall|i: int|
                0 <= i < 52 ==> #[trigger] r.unwrap()@[i] == spec_parse_card(
                    tokens@[i].spec_bytes(),
                ).unwrap() && r.unwrap()@[i] < 52
        },
{
    if tokens.len() != 52 {
        return None;
    }
    let mut out: Vec<u8> = Vec::new();
    let mut i: usize = 0;
    while i < 52
        invariant
            tokens@.len() == 52,
            i <= 52,
            out@.len() == i as int,
            forall|j: int|
                0 <= j < i ==> spec_parse_card((#[trigger] tokens@[j]).spec_bytes()) is Some,
            forall|j: int|
                0 <= j < i ==> #[trigger] out@[j] == spec_parse_card(
                    tokens@[j].spec_bytes(),
                ).unwrap() && out@[j] < 52,
        decreases 52 - i,
    {
        match parse_card(tokens[i]) {
            Some(c) => {
                out.push(c);
            },
            None => {
                return None;
            },
        }
        i += 1;
    }
    Some(out)
}

} // verus!
