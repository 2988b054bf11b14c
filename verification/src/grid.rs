//! Panels of a plane, kept in hash collections under one number each, and the
//! drawing of a set of panels as text.

use std::collections::HashSet;
use vstd::prelude::*;
use vstd::std_specs::iter::IteratorSpec;

verus! {

broadcast use vstd::std_specs::hash::group_hash_axioms;

/// The key under which a panel is kept: its two coordinates, each counted
/// from the least value there is, side by side in one number.
pub open spec fn key_of(position: (i32, i32)) -> u64 {
    ((position.0 - i32::MIN) * 0x1_0000_0000 + (position.1 - i32::MIN)) as u64
}

/// The panel that has the key `k`.
pub open spec fn panel_of(k: u64) -> (i32, i32) {
    ((k / 0x1_0000_0000 + i32::MIN) as i32, (k % 0x1_0000_0000 + i32::MIN) as i32)
}

/// Different panels have different keys.
pub proof fn lemma_key_of_is_injective(a: (i32, i32), b: (i32, i32))
    requires
        key_of(a) == key_of(b),
    ensures
        a == b,
{
}

/// Every number is the key of a panel, and of the panel it is the key of.
pub proof fn lemma_panel_of_key(k: u64, position: (i32, i32))
    ensures
        key_of(panel_of(k)) == k,
        panel_of(key_of(position)) == position,
{
}

/// The key of a panel.
pub fn key(position: (i32, i32)) -> (k: u64)
    ensures
        k == key_of(position),
{
    let x: u64 = (position.0 as i64 + 0x8000_0000) as u64;
    let y: u64 = (position.1 as i64 + 0x8000_0000) as u64;
    x * 0x1_0000_0000 + y
}

/// The panel that has the key `k`.
pub fn panel(k: u64) -> (position: (i32, i32))
    ensures
        position == panel_of(k),
{
    (
        ((k / 0x1_0000_0000) as i64 - 0x8000_0000) as i32,
        ((k % 0x1_0000_0000) as i64 - 0x8000_0000) as i32,
    )
}

/// Whether `b` holds the least and the greatest first coordinate, then the
/// least and the greatest second coordinate, of the panels to show: those
/// whose keys are in `shown`, and the panel (0, 0).
pub open spec fn frames(shown: Set<u64>, b: (i32, i32, i32, i32)) -> bool {
    &&& b.0 <= 0 <= b.1
    &&& b.2 <= 0 <= b.3
    &&& forall|p: (i32, i32)|
        shown.contains(#[trigger] key_of(p)) ==> b.0 <= p.0 <= b.1 && b.2 <= p.1 <= b.3
    &&& (b.0 == 0 || exists|p: (i32, i32)| shown.contains(#[trigger] key_of(p)) && p.0 == b.0)
    &&& (b.1 == 0 || exists|p: (i32, i32)| shown.contains(#[trigger] key_of(p)) && p.0 == b.1)
    &&& (b.2 == 0 || exists|p: (i32, i32)| shown.contains(#[trigger] key_of(p)) && p.1 == b.2)
    &&& (b.3 == 0 || exists|p: (i32, i32)| shown.contains(#[trigger] key_of(p)) && p.1 == b.3)
}

/// The first `n` panels of a row of a picture: the panels with the first
/// coordinate `x`, from the second coordinate `from` on, each drawn as `ink`
/// if it is shown and as a blank if it is not.
pub open spec fn picture_cells(shown: Set<u64>, ink: Seq<char>, x: int, from: int, n: int) -> Seq<
    char,
>
    decreases n,
{
    if n <= 0 {
        Seq::empty()
    } else {
        picture_cells(shown, ink, x, from, n - 1) + if shown.contains(
            key_of((x as i32, (from + n - 1) as i32)),
        ) {
            ink
        } else {
            seq![' ']
        }
    }
}

/// The first `rows` rows of the picture within the bounds `b`: one row for
/// each first coordinate from `b.0` on, each with the panels from the second
/// coordinate `b.2` up to `b.3` and a line feed behind them.
pub open spec fn picture(shown: Set<u64>, ink: Seq<char>, b: (i32, i32, i32, i32), rows: int) -> Seq<
    char,
>
    decreases rows,
{
    if rows <= 0 {
        Seq::empty()
    } else {
        picture(shown, ink, b, rows - 1) + picture_cells(
            shown,
            ink,
            b.0 + rows - 1,
            b.2 as int,
            b.3 - b.2 + 1,
        ).push('\n')
    }
}

/// The whole picture of the panels to show, within their bounds.
pub open spec fn is_picture(shown: Set<u64>, ink: Seq<char>, image: Seq<char>) -> bool {
    exists|b: (i32, i32, i32, i32)|
        frames(shown, b) && image == #[trigger] picture(shown, ink, b, b.1 - b.0 + 1)
}

/// The bounds of the panels to show.
pub fn bounds(shown: &HashSet<u64>) -> (b: (i32, i32, i32, i32))
    ensures
        frames(shown@, b),
{
    let mut b: (i32, i32, i32, i32) = (0, 0, 0, 0);
    let keys = shown.iter();
    let ghost all = keys.remaining().unref();
    for k in it: keys
        invariant
            it.seq().unref() == all,
            all.to_set() == shown@,
            b.0 <= 0 <= b.1,
            b.2 <= 0 <= b.3,
            forall|j: int|
                0 <= j < it.index() ==> b.0 <= panel_of(#[trigger] all[j]).0 <= b.1 && b.2
                    <= panel_of(all[j]).1 <= b.3,
            (b.0 == 0 || exists|p: (i32, i32)| shown@.contains(#[trigger] key_of(p)) && p.0 == b.0),
            (b.1 == 0 || exists|p: (i32, i32)| shown@.contains(#[trigger] key_of(p)) && p.0 == b.1),
            (b.2 == 0 || exists|p: (i32, i32)| shown@.contains(#[trigger] key_of(p)) && p.1 == b.2),
            (b.3 == 0 || exists|p: (i32, i32)| shown@.contains(#[trigger] key_of(p)) && p.1 == b.3),
    {
        let p = panel(*k);
        proof {
            lemma_panel_of_key(*k, p);
            assert(all.to_set().contains(all[it.index() as int]));
            assert(shown@.contains(key_of(p)));
        }
        if p.0 < b.0 {
            b.0 = p.0;
        }
        if p.0 > b.1 {
            b.1 = p.0;
        }
        if p.1 < b.2 {
            b.2 = p.1;
        }
        if p.1 > b.3 {
            b.3 = p.1;
        }
    }
    proof {
        assert forall|p: (i32, i32)| shown@.contains(#[trigger] key_of(p)) implies b.0 <= p.0 <= b.1
            && b.2 <= p.1 <= b.3 by {
            let k = key_of(p);
            assert(all.to_set().contains(k));
            let j = choose|j: int| 0 <= j < all.len() && all[j] == k;
            lemma_panel_of_key(k, p);
        }
    }
    b
}

/// Draws the panels within the bounds `b`, with `ink` for a panel that is
/// shown and a blank for any other.
pub fn render(shown: &HashSet<u64>, ink: &str, b: (i32, i32, i32, i32)) -> (image: String)
    ensures
        image@ == picture(shown@, ink@, b, b.1 - b.0 + 1),
{
    let mut image = String::new();
    let mut x: i64 = b.0 as i64;
    while x <= b.1 as i64
        invariant
            b.0 <= x,
            x <= b.1 + 1 || x == b.0,
            image@ == picture(shown@, ink@, b, x - b.0),
        decreases b.1 + 1 - x,
    {
        let ghost before = image@;
        let mut y: i64 = b.2 as i64;
        while y <= b.3 as i64
            invariant
                b.0 <= x <= b.1,
                b.2 <= y,
                y <= b.3 + 1 || y == b.2,
                image@ == before + picture_cells(shown@, ink@, x as int, b.2 as int, y - b.2),
            decreases b.3 + 1 - y,
        {
            let k = key((x as i32, y as i32));
            proof {
                reveal_strlit(" ");
                assert(" "@ =~= seq![' ']);
            }
            if shown.contains(&k) {
                image.append(ink);
            } else {
                image.append(" ");
            }
            y = y + 1;
        }
        proof {
            reveal_strlit("\n");
        }
        let ghost cells = image@;
        image.append("\n");
        proof {
            assert(image@ =~= before + picture_cells(
                shown@,
                ink@,
                x as int,
                b.2 as int,
                b.3 - b.2 + 1,
            ).push('\n'));
        }
        x = x + 1;
    }
    image
}

/// Draws the panels to show within their bounds.
pub fn draw(shown: &HashSet<u64>, ink: &str) -> (image: String)
    ensures
        is_picture(shown@, ink@, image@),
{
    let b = bounds(shown);
    let image = render(shown, ink, b);
    assert(frames(shown@, b) && image@ == picture(shown@, ink@, b, b.1 - b.0 + 1));
    image
}

} // verus!
