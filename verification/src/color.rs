//! Deterministic per-sender coloring: a rolling hash over the sender's bytes
//! picks an entry of a fixed palette of readable ANSI colors.

use vstd::prelude::*;
use vstd::string::*;

verus! {

/// One step of the djb2 rolling hash: `h * 33 + b`, wrapping on `u64`.
pub open spec fn djb2_step(h: u64, b: u8) -> u64 {
    (h << 5u64).wrapping_add(h).wrapping_add(b as u64)
}

/// The djb2 hash of a byte sequence, starting from 5381.
pub open spec fn djb2_of(bytes: Seq<u8>) -> u64
    decreases bytes.len(),
{
    if bytes.len() == 0 {
        5381u64
    } else {
        djb2_step(djb2_of(bytes.drop_last()), bytes.last())
    }
}

/// The djb2 hash of a string: the rolling hash over its UTF-8 bytes.
pub fn djb2(input: &str) -> (hash: u64)
    ensures
        hash == djb2_of(input.spec_bytes()),
{
    let bytes: Vec<u8> = input.as_bytes_vec();
    let mut hash: u64 = 5381;
    let mut i: usize = 0;
    while i < bytes.len()
        invariant
            i <= bytes@.len(),
            bytes@ == input.spec_bytes(),
            hash == djb2_of(bytes@.take(i as int)),
        decreases bytes@.len() - i,
    {
        let b = bytes[i];
        proof {
            assert(bytes@.take(i + 1).drop_last() =~= bytes@.take(i as int));
            assert(bytes@.take(i + 1).last() == bytes@[i as int]);
        }
        hash = (hash << 5u64).wrapping_add(hash).wrapping_add(b as u64);
        i = i + 1;
    }
    proof {
        assert(bytes@.take(bytes@.len() as int) =~= bytes@);
    }
    hash
}

/// The ANSI 256-color cube value for color-cube coordinates `(r, g, b)`.
pub open spec fn ansi_of(r: int, g: int, b: int) -> u8 {
    (16 + 36 * r + 6 * g + b) as u8
}

/// Whether a color-cube cell belongs to the palette: only cells with a low
/// red or a low green component are kept, which avoids hard-to-read colors.
pub open spec fn palette_keeps(r: int, g: int) -> bool {
    r < 2 || g < 2
}

pub open spec fn palette_cells(r: int, g: int, b: int) -> Seq<u8>
    decreases 6 - b when b <= 6
{
    if b >= 6 {
        Seq::empty()
    } else {
        (if palette_keeps(r, g) {
            seq![ansi_of(r, g, b)]
        } else {
            Seq::empty()
        }) + palette_cells(r, g, b + 1)
    }
}

pub open spec fn palette_greens(r: int, g: int) -> Seq<u8>
    decreases 6 - g when g <= 6
{
    if g >= 6 {
        Seq::empty()
    } else {
        palette_cells(r, g, 1) + palette_greens(r, g + 1)
    }
}

pub open spec fn palette_reds(r: int) -> Seq<u8>
    decreases 6 - r when r <= 6
{
    if r >= 6 {
        Seq::empty()
    } else {
        palette_greens(r, 1) + palette_reds(r + 1)
    }
}

/// The whole palette, enumerated over the color cube with red outermost.
pub open spec fn palette_seq() -> Seq<u8> {
    palette_reds(1)
}

/// The palette is not empty, so reducing a hash modulo its size is defined.
pub proof fn lemma_palette_nonempty()
    ensures
        palette_seq().len() > 0,
{
    reveal_with_fuel(palette_reds, 2);
    reveal_with_fuel(palette_greens, 2);
    reveal_with_fuel(palette_cells, 2);
    assert(palette_cells(1, 1, 1).len() >= 1);
    assert(palette_greens(1, 1).len() >= palette_cells(1, 1, 1).len());
    assert(palette_seq().len() >= palette_greens(1, 1).len());
}

/// Builds the palette of ANSI color values.
pub fn palette() -> (colors: Vec<u8>)
    ensures
        colors@ == palette_seq(),
        colors@.len() > 0,
{
    let mut colors: Vec<u8> = Vec::new();
    let mut r: u8 = 1;
    proof {
        assert(colors@ + palette_reds(1) =~= palette_reds(1));
    }
    while r < 6
        invariant
            1 <= r <= 6,
            colors@ + palette_reds(r as int) == palette_seq(),
        decreases 6 - r,
    {
        let mut g: u8 = 1;
        proof {
            assert(colors@ + palette_greens(r as int, 1) + palette_reds(r as int + 1)
                =~= colors@ + palette_reds(r as int));
        }
        while g < 6
            invariant
                1 <= r < 6,
                1 <= g <= 6,
                colors@ + palette_greens(r as int, g as int) + palette_reds(r as int + 1)
                    == palette_seq(),
            decreases 6 - g,
        {
            let mut b: u8 = 1;
            proof {
                assert(colors@ + palette_cells(r as int, g as int, 1)
                    + palette_greens(r as int, g as int + 1) + palette_reds(r as int + 1)
                    =~= colors@ + palette_greens(r as int, g as int)
                    + palette_reds(r as int + 1));
            }
            while b < 6
                invariant
                    1 <= r < 6,
                    1 <= g < 6,
                    1 <= b <= 6,
                    colors@ + palette_cells(r as int, g as int, b as int)
                        + palette_greens(r as int, g as int + 1) + palette_reds(r as int + 1)
                        == palette_seq(),
                decreases 6 - b,
            {
                let ghost prev = colors@;
                if r < 2 || g < 2 {
                    colors.push(16 + 36 * r + 6 * g + b);
                }
                proof {
                    assert(colors@ + palette_cells(r as int, g as int, b as int + 1)
                        =~= prev + palette_cells(r as int, g as int, b as int));
                    assert(colors@ + palette_cells(r as int, g as int, b as int + 1)
                        + palette_greens(r as int, g as int + 1) + palette_reds(r as int + 1)
                        =~= prev + palette_cells(r as int, g as int, b as int)
                        + palette_greens(r as int, g as int + 1) + palette_reds(r as int + 1));
                }
                b = b + 1;
            }
            proof {
                assert(colors@ + palette_greens(r as int, g as int + 1)
                    + palette_reds(r as int + 1)
                    =~= colors@ + palette_cells(r as int, g as int, 6)
                    + palette_greens(r as int, g as int + 1) + palette_reds(r as int + 1));
            }
            g = g + 1;
        }
        proof {
            assert(colors@ + palette_reds(r as int + 1)
                =~= colors@ + palette_greens(r as int, 6) + palette_reds(r as int + 1));
        }
        r = r + 1;
    }
    proof {
        lemma_palette_nonempty();
        assert(colors@ =~= colors@ + palette_reds(6));
    }
    colors
}

/// The palette index a sender name maps to.
pub open spec fn color_index_of_seq(s: Seq<char>) -> int {
    djb2_of(vstd::utf8::encode_utf8(s)) as int % palette_seq().len() as int
}

/// The ANSI color value assigned to a sender name: a pure function of the
/// name's text, so the same sender always gets the same color.
pub open spec fn color_of_seq(s: Seq<char>) -> u8 {
    palette_seq()[color_index_of_seq(s)]
}

/// The color of a sender given as a string slice.
pub open spec fn color_of(s: &str) -> u8 {
    color_of_seq(s@)
}

/// Assigns a stable ANSI color to a sender name.
pub fn sender_color(sender: &str) -> (color: u8)
    ensures
        color == color_of(sender),
{
    let colors = palette();
    let hash = djb2(sender);
    let idx: usize = (hash % (colors.len() as u64)) as usize;
    colors[idx]
}

/// Color assignment is a pure function of the sender's text: two names with
/// equal text always receive the same palette entry.
pub proof fn lemma_color_deterministic(a: &str, b: &str)
    requires
        a@ == b@,
    ensures
        color_of(a) == color_of(b),
{
    assert(a.spec_bytes() == b.spec_bytes());
}

} // verus!
