//! Pictures sent in layers: the layer with the fewest zeros, and the picture
//! that the layers show when they lie on top of each other.

use crate::text::{chars, is_digit};
use std::cmp::Ordering;
use vstd::prelude::*;

verus! {

/// The width of the picture.
pub const IMG_WIDE: usize = 25;

/// The height of the picture.
pub const IMG_TALL: usize = 6;

/// The number of times that `value` occurs among the pixels.
pub open spec fn count(pixels: Seq<u32>, value: u32) -> nat
    decreases pixels.len(),
{
    if pixels.len() == 0 {
        0
    } else {
        count(pixels.drop_last(), value) + if pixels.last() == value {
            1nat
        } else {
            0nat
        }
    }
}

/// The number of layers of `size` pixels that the input holds; the last may
/// be incomplete.
pub open spec fn layers(input: Seq<u32>, size: int) -> int {
    (input.len() + size - 1) / size
}

/// Layer `k` of the input: `size` pixels from the pixel `k * size` on, or as
/// many as there are.
pub open spec fn layer(input: Seq<u32>, size: int, k: int) -> Seq<u32> {
    input.subrange(
        k * size,
        if (k + 1) * size <= input.len() {
            (k + 1) * size
        } else {
            input.len() as int
        },
    )
}

/// Among the first `n` layers, the first of those with the fewest zeros.
pub open spec fn fewest_zeros(input: Seq<u32>, size: int, n: int) -> int
    decreases n,
{
    if n <= 1 {
        0
    } else {
        let best = fewest_zeros(input, size, n - 1);
        if count(layer(input, size, n - 1), 0) < count(layer(input, size, best), 0) {
            n - 1
        } else {
            best
        }
    }
}

/// Whether all the pixels are 0, 1 or 2.
pub open spec fn all_known(pixels: Seq<u32>) -> bool {
    forall|i: int| 0 <= i < pixels.len() ==> #[trigger] pixels[i] <= 2
}

/// What shows at a place of the picture through the first `n` layers: the
/// pixel of the first layer that has one there other than 2, and 2 if there
/// is no such layer.
pub open spec fn shows(input: Seq<u32>, size: int, at: int, n: int) -> u32
    decreases n,
{
    if n <= 0 {
        2
    } else {
        let above = shows(input, size, at, n - 1);
        if above == 2 && (n - 1) * size + at < input.len() {
            input[(n - 1) * size + at]
        } else {
            above
        }
    }
}

/// One row of the picture as text: a star for each 1, a blank for anything
/// else, and a line feed behind them.
pub open spec fn row_text(img: Seq<u32>) -> Seq<char> {
    Seq::new(
        img.len(),
        |i: int|
            if img[i] == 1 {
                '*'
            } else {
                ' '
            },
    ).push('\n')
}

/// The first `n` rows of `wide` pixels of a picture as text, behind a line
/// feed; the last row may be incomplete.
pub open spec fn image_text(img: Seq<u32>, wide: int, n: int) -> Seq<char>
    decreases n,
{
    if n <= 0 {
        seq!['\n']
    } else {
        image_text(img, wide, n - 1) + row_text(layer(img, wide, n - 1))
    }
}

/// The digits of the text as numbers, if the text consists of digits.
pub open spec fn pixels(s: Seq<char>) -> Option<Seq<u32>> {
    if forall|i: int| 0 <= i < s.len() ==> is_digit(#[trigger] s[i]) {
        Some(Seq::new(s.len(), |i: int| (s[i] as int - '0' as int) as u32))
    } else {
        None
    }
}

/// Reads the pixels: one digit each.
pub fn generator_input(input: &str) -> (r: Option<Vec<u32>>)
    ensures
        match r {
            Some(all) => pixels(input@) == Some(all@),
            None => pixels(input@) is None,
        },
{
    let text = chars(input);
    let mut all: Vec<u32> = Vec::new();
    let mut i: usize = 0;
    while i < text.len()
        invariant
            i <= text.len(),
            text@ == input@,
            all@.len() == i,
            forall|j: int| 0 <= j < i ==> is_digit(#[trigger] text@[j]),
            forall|j: int| 0 <= j < i ==> #[trigger] all@[j] == (text@[j] as int - '0' as int) as u32,
        decreases text.len() - i,
    {
        let c: char = text[i];
        if c < '0' || c > '9' {
            return None;
        }
        all.push(c as u32 - '0' as u32);
        i += 1;
    }
    proof {
        assert(all@ =~= pixels(input@).unwrap());
    }
    Some(all)
}

/// How often each of the three known pixels occurs in a layer.
#[derive(Debug, Clone, Copy, PartialEq, Eq)]
pub struct LayerInfo {
    /// The number of pixels that are 0.
    pub zeroes: usize,
    /// The number of pixels that are 1.
    pub ones: usize,
    /// The number of pixels that are 2.
    pub twos: usize,
}

impl LayerInfo {
    /// Orders two layers by their number of zeros.
    pub fn compare(a: &Self, b: &Self) -> (o: Ordering)
        ensures
            (o is Less) == (a.zeroes < b.zeroes),
            (o is Equal) == (a.zeroes == b.zeroes),
            (o is Greater) == (a.zeroes > b.zeroes),
    {
        if a.zeroes < b.zeroes {
            Ordering::Less
        } else if a.zeroes == b.zeroes {
            Ordering::Equal
        } else {
            Ordering::Greater
        }
    }

    /// The number of ones times the number of twos, if that is not more than
    /// the result can hold.
    pub fn checksum(self) -> (r: Option<usize>)
        ensures
            r == (if self.ones * self.twos <= usize::MAX {
                Some((self.ones * self.twos) as usize)
            } else {
                None
            }),
    {
        self.ones.checked_mul(self.twos)
    }

    /// Counts the pixels of a layer. `None` if one of them is not 0, 1 or 2.
    pub fn from(layer: &[u32]) -> (r: Option<LayerInfo>)
        ensures
            match r {
                Some(info) => all_known(layer@) && info.zeroes == count(layer@, 0) && info.ones
                    == count(layer@, 1) && info.twos == count(layer@, 2),
                None => !all_known(layer@),
            },
    {
        let mut zeroes: usize = 0;
        let mut ones: usize = 0;
        let mut twos: usize = 0;
        let mut i: usize = 0;
        while i < layer.len()
            invariant
                i <= layer.len(),
                all_known(layer@.take(i as int)),
                zeroes == count(layer@.take(i as int), 0),
                ones == count(layer@.take(i as int), 1),
                twos == count(layer@.take(i as int), 2),
                zeroes <= i,
                ones <= i,
                twos <= i,
            decreases layer.len() - i,
        {
            proof {
                assert(layer@.take(i + 1).drop_last() =~= layer@.take(i as int));
            }
            let x: u32 = layer[i];
            if x == 0 {
                zeroes += 1;
            } else if x == 1 {
                ones += 1;
            } else if x == 2 {
                twos += 1;
            } else {
                return None;
            }
            i += 1;
        }
        proof {
            assert(layer@.take(i as int) =~= layer@);
        }
        Some(LayerInfo { zeroes, ones, twos })
    }
}

/// Whether the first layer has fewer zeros than the second.
fn fewer_zeros(a: &LayerInfo, b: &LayerInfo) -> (fewer: bool)
    ensures
        fewer == (a.zeroes < b.zeroes),
{
    match LayerInfo::compare(a, b) {
        Ordering::Less => true,
        _ => false,
    }
}

/// The pixels of layer `k`.
fn layer_at(input: &[u32], size: usize, k: usize) -> (pixels: Vec<u32>)
    requires
        size > 0,
        k * size < input.len(),
    ensures
        pixels@ == layer(input@, size as int, k as int),
        k * size + pixels@.len() <= input.len(),
        pixels@.len() <= size,
        pixels@.len() == size || k * size + pixels@.len() == input.len(),
        forall|i: int| 0 <= i < pixels@.len() ==> #[trigger] pixels@[i] == input@[k * size + i],
{
    assert(k * size + size == (k + 1) * size) by (nonlinear_arith);
    let from: usize = k * size;
    let to: usize = if input.len() - from >= size {
        from + size
    } else {
        input.len()
    };
    let mut pixels: Vec<u32> = Vec::new();
    let mut i: usize = from;
    while i < to
        invariant
            from <= i <= to <= input.len(),
            pixels@ == input@.subrange(from as int, i as int),
        decreases to - i,
    {
        pixels.push(input[i]);
        proof {
            assert(input@.subrange(from as int, i + 1) =~= input@.subrange(
                from as int,
                i as int,
            ).push(input@[i as int]));
        }
        i += 1;
    }
    pixels
}

/// The size of a layer and the number of layers, if the layers have a size.
fn measure(len: usize, wide: usize, tall: usize) -> (r: Option<(usize, usize)>)
    ensures
        match r {
            Some((size, n)) => {
                &&& size == wide * tall
                &&& size > 0
                &&& n == (len + size - 1) / (size as int)
                &&& len <= n * size
                &&& n > 0 ==> (n - 1) * size < len
            },
            None => wide * tall == 0 || wide * tall > usize::MAX,
        },
{
    let size: usize = match wide.checked_mul(tall) {
        Some(size) => size,
        None => {
            return None;
        },
    };
    if size == 0 {
        return None;
    }
    let whole: usize = len / size;
    let rest: usize = len % size;
    assert(len == whole * size + rest && (rest > 0 ==> whole < len)) by (nonlinear_arith)
        requires
            size > 0,
            whole == len / size,
            rest == len % size,
    ;
    let n: usize = if rest == 0 {
        whole
    } else {
        whole + 1
    };
    assert(n == (len + size - 1) / (size as int) && len <= n * size && (n > 0 ==> (n - 1) * size
        < len)) by (nonlinear_arith)
        requires
            size > 0,
            len == whole * size + rest,
            0 <= rest < size,
            n == if rest == 0 {
                whole as int
            } else {
                whole + 1
            },
    ;
    Some((size, n))
}

/// What [`solve_part_one`] returns: for the first of the layers with the
/// fewest zeros, the number of its ones times the number of its twos.
///
/// There is no result if the layers have no size, if there is no pixel, if a
/// pixel of one of the layers is not 0, 1 or 2, or if the product is more
/// than the result can hold.
pub open spec fn layer_check(input: Seq<u32>, wide: usize, tall: usize) -> Option<usize> {
    let size = wide * tall;
    let best = layer(input, size, fewest_zeros(input, size, layers(input, size)));
    if 0 < size <= usize::MAX && input.len() > 0 && all_known(input) && count(best, 1) * count(
        best,
        2,
    ) <= usize::MAX {
        Some((count(best, 1) * count(best, 2)) as usize)
    } else {
        None
    }
}

/// The checksum of the layer with the fewest zeros.
pub fn solve_part_one(input: &[u32], wide: usize, tall: usize) -> (r: Option<usize>)
    ensures
        r == layer_check(input@, wide, tall),
{
    let (size, n) = match measure(input.len(), wide, tall) {
        Some(m) => m,
        None => {
            return None;
        },
    };
    if n == 0 {
        return None;
    }
    let mut best: Option<LayerInfo> = None;
    let mut k: usize = 0;
    while k < n
        invariant
            size == wide * tall,
            size > 0,
            k <= n,
            n == layers(input@, size as int),
            (n - 1) * size < input.len() <= n * size,
            all_known(input@.take(if k * size <= input@.len() {
                k * size
            } else {
                input@.len() as int
            })),
            k == 0 ==> best is None,
            k > 0 ==> best is Some,
            best matches Some(info) ==> {
                let chosen = layer(input@, size as int, fewest_zeros(input@, size as int, k as int));
                info.zeroes == count(chosen, 0) && info.ones == count(chosen, 1) && info.twos
                    == count(chosen, 2)
            },
        decreases n - k,
    {
        assert(k * size <= (n - 1) * size) by (nonlinear_arith)
            requires
                k <= n - 1,
                size > 0,
        ;
        assert((k + 1) * size == k * size + size) by (nonlinear_arith);
        let pixels = layer_at(input, size, k);
        let info = match LayerInfo::from(pixels.as_slice()) {
            Some(info) => info,
            None => {
                proof {
                    let bad = choose|i: int| 0 <= i < pixels@.len() && !(#[trigger] pixels@[i] <= 2);
                    assert(input@[k * size + bad] == pixels@[bad]);
                }
                return None;
            },
        };
        proof {
            let before = input@.take(k * size);
            let after = input@.take(
                if (k + 1) * size <= input@.len() {
                    (k + 1) * size
                } else {
                    input@.len() as int
                },
            );
            assert forall|i: int| 0 <= i < after.len() implies #[trigger] after[i] <= 2 by {
                if i < k * size {
                    assert(before[i] == after[i]);
                } else {
                    assert(pixels@[i - k * size] == after[i]);
                }
            }
        }
        best = match best {
            Some(old) => if fewer_zeros(&info, &old) {
                Some(info)
            } else {
                Some(old)
            },
            None => Some(info),
        };
        k += 1;
    }
    proof {
        assert(input@.take(input@.len() as int) =~= input@);
    }
    match best {
        Some(info) => info.checksum(),
        None => None,
    }
}

/// What [`solve_part_two`] returns: the picture that shows through all the
/// layers, as text, row by row.
///
/// There is no result if the layers have no size.
pub open spec fn layer_image(input: Seq<u32>, wide: usize, tall: usize) -> Option<Seq<char>> {
    let size = wide * tall;
    if 0 < size <= usize::MAX {
        Some(
            image_text(
                Seq::new(size as nat, |at: int| shows(input, size, at, layers(input, size))),
                wide as int,
                tall as int,
            ),
        )
    } else {
        None
    }
}

/// The picture that shows through the layers.
pub fn solve_part_two(input: &[u32], wide: usize, tall: usize) -> (r: Option<String>)
    ensures
        match r {
            Some(text) => layer_image(input@, wide, tall) == Some(text@),
            None => layer_image(input@, wide, tall) is None,
        },
{
    let (size, n) = match measure(input.len(), wide, tall) {
        Some(m) => m,
        None => {
            return None;
        },
    };
    let mut img: Vec<u32> = Vec::new();
    let mut at: usize = 0;
    while at < size
        invariant
            at <= size,
            img@.len() == at,
            forall|i: int| 0 <= i < at ==> #[trigger] img@[i] == 2,
        decreases size - at,
    {
        img.push(2);
        at += 1;
    }
    let mut k: usize = 0;
    while k < n
        invariant
            size == wide * tall,
            size > 0,
            k <= n,
            n == layers(input@, size as int),
            input@.len() <= n * size,
            n > 0 ==> (n - 1) * size < input.len(),
            img@.len() == size,
            forall|i: int|
                0 <= i < size ==> #[trigger] img@[i] == shows(input@, size as int, i, k as int),
        decreases n - k,
    {
        assert(k * size <= (n - 1) * size) by (nonlinear_arith)
            requires
                k <= n - 1,
                size > 0,
        ;
        let pixels = layer_at(input, size, k);
        let mut idx: usize = 0;
        while idx < pixels.len()
            invariant
                idx <= pixels.len() <= size,
                img@.len() == size,
                pixels@ == layer(input@, size as int, k as int),
                forall|i: int|
                    0 <= i < pixels@.len() ==> #[trigger] pixels@[i] == input@[k * size + i],
                k * size + pixels@.len() <= input@.len(),
                pixels@.len() == size || k * size + pixels@.len() == input@.len(),
                forall|i: int|
                    0 <= i < idx ==> #[trigger] img@[i] == shows(input@, size as int, i, k + 1),
                forall|i: int|
                    idx <= i < size ==> #[trigger] img@[i] == shows(input@, size as int, i, k as int),
            decreases pixels.len() - idx,
        {
            if img[idx] == 2 {
                img.set(idx, pixels[idx]);
            }
            idx += 1;
        }
        k += 1;
    }
    let wide_rows = match measure(size, wide, 1) {
        Some(m) => m,
        None => {
            proof {
                assert(wide * tall > 0 ==> wide > 0) by (nonlinear_arith);
            }
            return None;
        },
    };
    proof {
        assert(wide_rows.1 == tall) by (nonlinear_arith)
            requires
                wide_rows.0 == wide * 1,
                wide > 0,
                size == wide * tall,
                wide_rows.1 == (size + wide_rows.0 - 1) / (wide_rows.0 as int),
        ;
    }
    let mut text = String::new();
    proof {
        reveal_strlit("\n");
        reveal_strlit("*");
        reveal_strlit(" ");
    }
    text.append("\n");
    let mut row: usize = 0;
    while row < tall
        invariant
            row <= tall,
            wide > 0,
            size == wide * tall,
            img@.len() == size,
            "\n"@ == seq!['\n'],
            "*"@ == seq!['*'],
            " "@ == seq![' '],
            text@ == image_text(img@, wide as int, row as int),
        decreases tall - row,
    {
        assert(row * wide + wide <= size && (row + 1) * wide == row * wide + wide) by (nonlinear_arith)
            requires
                row < tall,
                size == wide * tall,
        ;
        let ghost before = text@;
        let ghost line = row_text(layer(img@, wide as int, row as int));
        let mut col: usize = 0;
        while col < wide
            invariant
                col <= wide,
                row * wide + wide <= size,
                (row + 1) * wide == row * wide + wide,
                img@.len() == size,
                "*"@ == seq!['*'],
                " "@ == seq![' '],
                line == row_text(layer(img@, wide as int, row as int)),
                text@ == before + line.take(col as int),
            decreases wide - col,
        {
            let ghost so_far = text@;
            assert(layer(img@, wide as int, row as int)[col as int] == img@[row * wide + col]);
            if img[row * wide + col] == 1 {
                text.append("*");
            } else {
                text.append(" ");
            }
            proof {
                assert(line.take(col + 1) =~= line.take(col as int).push(line[col as int]));
                assert(text@ =~= so_far.push(line[col as int]));
            }
            col += 1;
        }
        text.append("\n");
        proof {
            assert(line =~= line.take(wide as int).push('\n'));
            assert(text@ =~= before + line);
        }
        row += 1;
    }
    proof {
        assert(img@ =~= Seq::new(
            size as nat,
            |at: int| shows(input@, size as int, at, layers(input@, size as int)),
        ));
    }
    Some(text)
}

/// The checksum for a picture of 25 by 6 pixels.
pub fn part_one(input: &[u32]) -> (r: Option<usize>)
    ensures
        r == layer_check(input@, IMG_WIDE, IMG_TALL),
{
    solve_part_one(input, IMG_WIDE, IMG_TALL)
}

/// The picture of 25 by 6 pixels.
pub fn part_two(input: &[u32]) -> (r: Option<String>)
    ensures
        match r {
            Some(text) => layer_image(input@, IMG_WIDE, IMG_TALL) == Some(text@),
            None => layer_image(input@, IMG_WIDE, IMG_TALL) is None,
        },
{
    solve_part_two(input, IMG_WIDE, IMG_TALL)
}

} // verus!
