//! Asteroids on a grid, and the one from which most others are in sight.

use crate::arith::magnitude;
use crate::text::{chars, lines, split_lines, views};
use std::collections::HashSet;
use vstd::prelude::*;

verus! {

broadcast use vstd::std_specs::hash::group_hash_axioms;

/// The asteroids among the first `n` places of a row: a `#` marks one, and
/// the place in the row is its first coordinate.
pub open spec fn row(line: Seq<char>, y: i32, n: int) -> Seq<(i32, i32)>
    decreases n,
{
    if n <= 0 {
        Seq::empty()
    } else if line[n - 1] == '#' {
        row(line, y, n - 1).push(((n - 1) as i32, y))
    } else {
        row(line, y, n - 1)
    }
}

/// The asteroids in the first `n` rows, row by row; the number of the row is
/// the second coordinate.
pub open spec fn field(rows: Seq<Seq<char>>, n: int) -> Seq<(i32, i32)>
    decreases n,
{
    if n <= 0 {
        Seq::empty()
    } else {
        field(rows, n - 1) + row(rows[n - 1], (n - 1) as i32, rows[n - 1].len() as int)
    }
}

/// The asteroids that a text shows, if all the coordinates fit in 32 bits.
pub open spec fn asteroids(s: Seq<char>) -> Option<Seq<(i32, i32)>> {
    let rows = lines(s);
    if rows.len() <= i32::MAX && forall|i: int|
        0 <= i < rows.len() ==> (#[trigger] rows[i]).len() <= i32::MAX {
        Some(field(rows, rows.len() as int))
    } else {
        None
    }
}

/// The mark of the direction in which `b` lies as seen from `a`: the quarter
/// of the plane, and in it the ratio of the two distances along the axes, in
/// thousandths and then times a thousand. Asteroids with the same mark count
/// as lying in one line of sight.
///
/// The quarters are 1 for greater first and not lesser second coordinates, 2
/// for not lesser first and lesser second, 4 for not greater first and
/// greater second, and 3 for the rest. In the quarters 2 and 4 the ratio is
/// that of the first to the second distance, and in the others the other way
/// round.
pub open spec fn mark(a: (i32, i32), b: (i32, i32)) -> (i32, i64) {
    let dx = b.0 - a.0;
    let dy = b.1 - a.1;
    let zone = if dx > 0 && dy >= 0 {
        1i32
    } else if dx >= 0 && dy < 0 {
        2i32
    } else if dx <= 0 && dy > 0 {
        4i32
    } else {
        3i32
    };
    let over = if zone == 2 || zone == 4 {
        magnitude(dx)
    } else {
        magnitude(dy)
    };
    let under = if zone == 2 || zone == 4 {
        magnitude(dy)
    } else {
        magnitude(dx)
    };
    (zone, (over * 1000 / under * 1000) as i64)
}

/// The key under which a mark is kept: the quarter and the ratio side by
/// side in one number.
pub open spec fn mark_key(m: (i32, i64)) -> u128 {
    (m.0 * 0x1_0000_0000_0000_0000 + m.1) as u128
}

/// The keys of the marks of the first `n` asteroids as seen from `p`, which
/// is not counted itself.
pub open spec fn sights(input: Seq<(i32, i32)>, p: (i32, i32), n: int) -> Set<u128>
    decreases n,
{
    if n <= 0 {
        Set::empty()
    } else if input[n - 1] == p {
        sights(input, p, n - 1)
    } else {
        sights(input, p, n - 1).insert(mark_key(mark(p, input[n - 1])))
    }
}

/// The number of lines of sight from `p` on which an asteroid lies.
pub open spec fn in_sight(input: Seq<(i32, i32)>, p: (i32, i32)) -> nat {
    sights(input, p, input.len() as int).len()
}

/// Among the first `n` asteroids, the last of those that see the most.
pub open spec fn best(input: Seq<(i32, i32)>, n: int) -> int
    decreases n,
{
    if n <= 1 {
        0
    } else if in_sight(input, input[n - 1]) >= in_sight(input, input[best(input, n - 1)]) {
        n - 1
    } else {
        best(input, n - 1)
    }
}

/// The sights are finitely many, and no more than there are asteroids.
pub proof fn lemma_sights_finite(input: Seq<(i32, i32)>, p: (i32, i32), n: int)
    requires
        n <= input.len(),
    ensures
        sights(input, p, n).finite(),
        sights(input, p, n).len() <= if n < 0 {
            0
        } else {
            n
        },
    decreases n,
{
    if n > 0 {
        lemma_sights_finite(input, p, n - 1);
    }
}

/// Reads the asteroids from a picture of the grid.
pub fn input_generator(input: &str) -> (r: Option<Vec<(i32, i32)>>)
    ensures
        match r {
            Some(all) => asteroids(input@) == Some(all@),
            None => asteroids(input@) is None,
        },
{
    let text = chars(input);
    let rows = split_lines(&text);
    if rows.len() > 0x7fff_ffff {
        return None;
    }
    let mut all: Vec<(i32, i32)> = Vec::new();
    let mut y: usize = 0;
    while y < rows.len()
        invariant
            y <= rows.len() <= i32::MAX,
            views(rows@) == lines(input@),
            forall|i: int| 0 <= i < y ==> (#[trigger] lines(input@)[i]).len() <= i32::MAX,
            all@ == field(lines(input@), y as int),
        decreases rows.len() - y,
    {
        let line = &rows[y];
        assert(views(rows@)[y as int] == line@);
        if line.len() > 0x7fff_ffff {
            return None;
        }
        let ghost before = all@;
        let mut x: usize = 0;
        while x < line.len()
            invariant
                x <= line.len() <= i32::MAX,
                y < rows.len() <= i32::MAX,
                all@ == before + row(line@, y as i32, x as int),
            decreases line.len() - x,
        {
            if line[x] == '#' {
                all.push((x as i32, y as i32));
            }
            proof {
                assert(all@ =~= before + row(line@, y as i32, x + 1));
            }
            x += 1;
        }
        y += 1;
    }
    Some(all)
}

/// The mark of the direction in which `b` lies as seen from `a`. `None` if
/// the two are the same place.
pub fn identifier(a: &(i32, i32), b: &(i32, i32)) -> (r: Option<(i32, i64)>)
    ensures
        r == (if *a == *b {
            None
        } else {
            Some(mark(*a, *b))
        }),
{
    let dx: i64 = b.0 as i64 - a.0 as i64;
    let dy: i64 = b.1 as i64 - a.1 as i64;
    if dx == 0 && dy == 0 {
        return None;
    }
    // 1 for top-right
    // 2 for bot-right
    // 3 for bot-left
    // 4 for top-left
    let zone: i32 = if dx > 0 && dy >= 0 {
        1
    } else if dx >= 0 && dy < 0 {
        2
    } else if dx <= 0 && dy > 0 {
        4
    } else {
        3
    };
    let ax: i64 = if dx < 0 {
        -dx
    } else {
        dx
    };
    let ay: i64 = if dy < 0 {
        -dy
    } else {
        dy
    };
    let (over, under): (i64, i64) = if zone == 2 || zone == 4 {
        (ax, ay)
    } else {
        (ay, ax)
    };
    let ratio: i64 = over * 1000 / under;
    assert(0 <= ratio <= over * 1000) by (nonlinear_arith)
        requires
            ratio == (over * 1000) / (under as int),
            over >= 0,
            under >= 1,
    ;
    Some((zone, ratio * 1000))
}

/// The key of a mark.
fn key_of_mark(m: (i32, i64)) -> (k: u128)
    requires
        1 <= m.0 <= 4,
        0 <= m.1,
    ensures
        k == mark_key(m),
{
    (m.0 as u128) * 0x1_0000_0000_0000_0000 + (m.1 as u128)
}

/// The number of lines of sight from `p` on which an asteroid lies.
pub fn visible_from(input: &[(i32, i32)], p: &(i32, i32)) -> (count: usize)
    ensures
        count == in_sight(input@, *p),
{
    let mut seen: HashSet<u128> = HashSet::new();
    let mut n: usize = 0;
    while n < input.len()
        invariant
            n <= input.len(),
            seen@ == sights(input@, *p, n as int),
        decreases input.len() - n,
    {
        match identifier(p, &input[n]) {
            Some(m) => {
                seen.insert(key_of_mark(m));
            },
            None => {},
        }
        n += 1;
    }
    proof {
        lemma_sights_finite(input@, *p, input@.len() as int);
    }
    seen.len()
}

/// The last of the asteroids that see the most, with the number of lines of
/// sight on which it sees an asteroid. `None` if there is no asteroid.
pub fn find_best_asteroid(input: &[(i32, i32)]) -> (r: Option<((i32, i32), usize)>)
    ensures
        r == (if input@.len() == 0 {
            None
        } else {
            Some(
                (
                    input@[best(input@, input@.len() as int)],
                    in_sight(input@, input@[best(input@, input@.len() as int)]) as usize,
                ),
            )
        }),
{
    if input.len() == 0 {
        return None;
    }
    let mut at: usize = 0;
    let mut most: usize = visible_from(input, &input[0]);
    let mut n: usize = 1;
    while n < input.len()
        invariant
            1 <= n <= input.len(),
            at == best(input@, n as int),
            at < n,
            most == in_sight(input@, input@[at as int]),
        decreases input.len() - n,
    {
        let len = visible_from(input, &input[n]);
        if len >= most {
            at = n;
            most = len;
        }
        n += 1;
    }
    Some((input[at], most))
}

/// The greatest number of lines of sight on which an asteroid sees another.
pub fn part_one(input: &[(i32, i32)]) -> (r: Option<usize>)
    ensures
        r == (if input@.len() == 0 {
            None
        } else {
            Some(in_sight(input@, input@[best(input@, input@.len() as int)]) as usize)
        }),
{
    match find_best_asteroid(input) {
        Some(found) => Some(found.1),
        None => None,
    }
}

} // verus!
