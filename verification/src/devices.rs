//! What is computed about compute devices once their properties and the
//! user's settings have been read: the bus id that a raw property holds, the
//! bus ids that a list in text form names, and which devices those select.

use vstd::prelude::*;

verus! {

/// The number that four bytes denote, least significant byte first.
pub open spec fn le_u32(b0: u8, b1: u8, b2: u8, b3: u8) -> int {
    b0 + b1 * 0x100 + b2 * 0x1_0000 + b3 * 0x100_0000
}

/// The bus id in a raw device property: its first four bytes, least
/// significant first. `None` where the property is shorter.
pub fn bus_id_from_raw(raw: &[u8]) -> (id: Option<u32>)
    ensures
        id is Some <==> raw@.len() >= 4,
        id matches Some(v) ==> v == le_u32(raw@[0], raw@[1], raw@[2], raw@[3]),
{
    if raw.len() < 4 {
        return None;
    }
    let b0 = raw[0] as u32;
    let b1 = raw[1] as u32;
    let b2 = raw[2] as u32;
    let b3 = raw[3] as u32;
    assert(b1 << 8 == b1 * 0x100) by (bit_vector)
        requires
            b1 < 0x100,
    ;
    assert(b2 << 16 == b2 * 0x1_0000) by (bit_vector)
        requires
            b2 < 0x100,
    ;
    assert(b3 << 24 == b3 * 0x100_0000) by (bit_vector)
        requires
            b3 < 0x100,
    ;
    Some(b0 + (b1 << 8) + (b2 << 16) + (b3 << 24))
}

/// The positions, in rising order, of the devices whose bus id is one of
/// `wanted`.
pub fn select_by_bus_id(bus_ids: &[u32], wanted: &[u32]) -> (kept: Vec<usize>)
    ensures
        forall|j: int| 0 <= j < kept@.len() ==> kept@[j] < bus_ids@.len(),
        forall|j: int|
            0 <= j < kept@.len() ==> wanted@.contains(bus_ids@[#[trigger] kept@[j] as int]),
        forall|j: int, l: int| 0 <= j < l < kept@.len() ==> kept@[j] < kept@[l],
        forall|i: int|
            0 <= i < bus_ids@.len() && wanted@.contains(bus_ids@[i]) ==> kept@.contains(
                i as usize,
            ),
{
    let mut kept: Vec<usize> = Vec::new();
    let mut i: usize = 0;
    while i < bus_ids.len()
        invariant
            i <= bus_ids@.len(),
            forall|j: int| 0 <= j < kept@.len() ==> kept@[j] < i,
            forall|j: int|
                0 <= j < kept@.len() ==> wanted@.contains(bus_ids@[#[trigger] kept@[j] as int]),
            forall|j: int, l: int| 0 <= j < l < kept@.len() ==> kept@[j] < kept@[l],
            forall|t: int|
                0 <= t < i && wanted@.contains(bus_ids@[t]) ==> kept@.contains(t as usize),
        decreases bus_ids@.len() - i,
    {
        if contains_id(wanted, bus_ids[i]) {
            let ghost before = kept@;
            kept.push(i);
            proof {
                assert forall|t: int|
                    0 <= t < i + 1 && wanted@.contains(bus_ids@[t]) implies kept@.contains(
                    t as usize,
                ) by {
                    if t < i {
                        let j = choose|j: int| 0 <= j < before.len() && before[j] == t as usize;
                        assert(kept@[j] == t as usize);
                    } else {
                        assert(kept@[before.len() as int] == i);
                    }
                }
            }
        }
        i = i + 1;
    }
    kept
}

/// Tells whether `id` is one of `ids`.
pub fn contains_id(ids: &[u32], id: u32) -> (found: bool)
    ensures
        found == ids@.contains(id),
{
    let mut i: usize = 0;
    while i < ids.len()
        invariant
            i <= ids@.len(),
            forall|j: int| 0 <= j < i ==> ids@[j] != id,
        decreases ids@.len() - i,
    {
        if ids[i] == id {
            return true;
        }
        i = i + 1;
    }
    false
}

/// The byte that separates the bus ids of a list.
pub const LIST_SEPARATOR: u8 = 0x2c;

/// The plus sign that may stand before a number.
pub const PLUS_SIGN: u8 = 0x2b;

/// The byte is one of the digits `0` to `9`.
pub open spec fn is_digit(b: u8) -> bool {
    0x30 <= b <= 0x39
}

/// The number that a sequence of decimal digits denotes.
pub open spec fn decimal_value(digits: Seq<u8>) -> nat
    decreases digits.len(),
{
    if digits.len() == 0 {
        0
    } else {
        (decimal_value(digits.drop_last()) * 10 + (digits.last() - 0x30)) as nat
    }
}

/// The digits of a number: what follows its plus sign, if it has one.
pub open spec fn unsigned_digits(text: Seq<u8>) -> Seq<u8> {
    if text.len() > 0 && text[0] == PLUS_SIGN {
        text.skip(1)
    } else {
        text
    }
}

/// The number that a text denotes: an optional plus sign and then one or
/// more decimal digits, with a value that fits in 32 bits.
pub open spec fn spec_parse_u32(text: Seq<u8>) -> Option<u32> {
    let digits = unsigned_digits(text);
    if digits.len() > 0 && (forall|i: int| 0 <= i < digits.len() ==> is_digit(#[trigger] digits[i]))
        && decimal_value(digits) <= u32::MAX {
        Some(decimal_value(digits) as u32)
    } else {
        None
    }
}

/// The pieces that the separator cuts a text into. Read from left to right,
/// a separator opens a new piece, and any other byte goes to the end of the
/// last piece. A text without separator is one piece.
pub open spec fn pieces(text: Seq<u8>, separator: u8) -> Seq<Seq<u8>>
    decreases text.len(),
{
    if text.len() == 0 {
        seq![Seq::empty()]
    } else {
        let front = pieces(text.drop_last(), separator);
        if text.last() == separator {
            front.push(Seq::empty())
        } else {
            front.drop_last().push(front.last().push(text.last()))
        }
    }
}

/// A text is cut into at least one piece.
pub proof fn lemma_pieces_nonempty(text: Seq<u8>, separator: u8)
    ensures
        pieces(text, separator).len() >= 1,
    decreases text.len(),
{
    if text.len() > 0 {
        lemma_pieces_nonempty(text.drop_last(), separator);
    }
}

/// The number that a text denotes, or `None` where it denotes none.
pub fn parse_u32(text: &[u8]) -> (r: Option<u32>)
    ensures
        r == spec_parse_u32(text@),
{
    let start: usize = if text.len() > 0 && text[0] == PLUS_SIGN {
        1
    } else {
        0
    };
    let ghost digits = unsigned_digits(text@);
    if start == text.len() {
        return None;
    }
    let mut value: u64 = 0;
    let mut fits = true;
    let mut i: usize = start;
    while i < text.len()
        invariant
            start <= i <= text@.len(),
            digits == text@.skip(start as int),
            digits == unsigned_digits(text@),
            forall|j: int| 0 <= j < i - start ==> is_digit(#[trigger] digits[j]),
            fits ==> value == decimal_value(digits.take(i - start)) && value <= u32::MAX,
            !fits ==> decimal_value(digits.take(i - start)) > u32::MAX,
        decreases text@.len() - i,
    {
        let b = text[i];
        if b < 0x30 || b > 0x39 {
            assert(digits[i - start] == b);
            assert(!is_digit(digits[i - start]));
            return None;
        }
        proof {
            assert(digits.take(i - start + 1).drop_last() =~= digits.take(i - start));
            assert(digits.take(i - start + 1).last() == b);
        }
        if fits {
            value = value * 10 + (b - 0x30) as u64;
            if value > u32::MAX as u64 {
                fits = false;
            }
        }
        i = i + 1;
    }
    assert(digits.take(i - start) =~= digits);
    if fits {
        Some(value as u32)
    } else {
        None
    }
}

/// Every piece of `list` denotes a number.
pub open spec fn all_numbers(list: Seq<Seq<u8>>) -> bool {
    forall|t: int| 0 <= t < list.len() ==> spec_parse_u32(#[trigger] list[t]) is Some
}

/// The bus ids that a list of numbers with commas between them holds, or
/// `None` where one of its pieces denotes no number.
pub fn parse_bus_ids(text: &[u8]) -> (r: Option<Vec<u32>>)
    ensures
        r is Some <==> all_numbers(pieces(text@, LIST_SEPARATOR)),
        r matches Some(ids) ==> {
            &&& ids@.len() == pieces(text@, LIST_SEPARATOR).len()
            &&& forall|t: int|
                0 <= t < ids@.len() ==> Some(#[trigger] ids@[t]) == spec_parse_u32(
                    pieces(text@, LIST_SEPARATOR)[t],
                )
        },
{
    let mut ids: Vec<u32> = Vec::new();
    let mut all = true;
    let mut start: usize = 0;
    let mut i: usize = 0;
    let ghost mut done: Seq<Seq<u8>> = Seq::empty();
    proof {
        assert(text@.take(0) =~= Seq::<u8>::empty());
        assert(text@.subrange(0, 0) =~= Seq::<u8>::empty());
        assert(pieces(text@.take(0), LIST_SEPARATOR) =~= done.push(text@.subrange(0, 0)));
    }
    while i < text.len()
        invariant
            start <= i <= text@.len(),
            pieces(text@.take(i as int), LIST_SEPARATOR) == done.push(
                text@.subrange(start as int, i as int),
            ),
            all ==> all_numbers(done) && ids@.len() == done.len(),
            all ==> forall|t: int|
                0 <= t < done.len() ==> Some(#[trigger] ids@[t]) == spec_parse_u32(done[t]),
            !all ==> !all_numbers(done),
        decreases text@.len() - i,
    {
        let ghost piece = text@.subrange(start as int, i as int);
        proof {
            assert(text@.take(i + 1).drop_last() =~= text@.take(i as int));
            assert(done.push(piece).drop_last() =~= done);
        }
        if text[i] == LIST_SEPARATOR {
            let id = parse_u32(vstd::slice::slice_subrange(text, start, i));
            proof {
                let grown = done.push(piece);
                if !all {
                    let t = choose|t: int| 0 <= t < done.len() && !(spec_parse_u32(done[t]) is Some);
                    assert(grown[t] == done[t]);
                }
            }
            match id {
                Some(v) => {
                    if all {
                        ids.push(v);
                    }
                },
                None => {
                    proof {
                        assert(done.push(piece)[done.len() as int] == piece);
                    }
                    all = false;
                },
            }
            proof {
                done = done.push(piece);
                assert(text@.subrange(i + 1, i + 1) =~= Seq::<u8>::empty());
            }
            start = i + 1;
        } else {
            proof {
                assert(piece.push(text@[i as int]) =~= text@.subrange(start as int, i + 1));
            }
        }
        i = i + 1;
    }
    let ghost piece = text@.subrange(start as int, i as int);
    let id = parse_u32(vstd::slice::slice_subrange(text, start, i));
    proof {
        assert(text@.take(i as int) =~= text@);
        let grown = done.push(piece);
        if !all {
            let t = choose|t: int| 0 <= t < done.len() && !(spec_parse_u32(done[t]) is Some);
            assert(grown[t] == done[t]);
        }
        assert(grown[done.len() as int] == piece);
    }
    match id {
        Some(v) => {
            if all {
                ids.push(v);
                Some(ids)
            } else {
                None
            }
        },
        None => None,
    }
}

} // verus!
