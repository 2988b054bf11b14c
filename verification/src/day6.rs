//! Orbits: a tree of objects, the number of direct and indirect orbits, and
//! the way from one object to another.

use crate::graph::{distance, is_cut_off, is_shortest, lists};
use crate::text::{
    chars, find, intern, lemma_place_bounds, lines, place, split, split_at, split_lines, string_of,
    texts, views, with_name,
};
use std::collections::HashMap;
use vstd::prelude::*;

verus! {

broadcast use vstd::std_specs::hash::group_hash_axioms;

/// One object in orbit around another.
#[derive(Debug, Clone, PartialEq, Eq)]
pub struct OrbitRelation {
    /// The object in orbit.
    pub ident: String,
    /// The object that it orbits.
    pub parent: String,
}

/// An orbit as a value.
pub struct Orbit {
    /// The name of the object in orbit.
    pub ident: Seq<char>,
    /// The name of the object that it orbits.
    pub parent: Seq<char>,
}

impl View for OrbitRelation {
    type V = Orbit;

    open spec fn view(&self) -> Orbit {
        Orbit { ident: self.ident@, parent: self.parent@ }
    }
}

/// The views of a sequence of orbits.
pub open spec fn orbits(all: Seq<OrbitRelation>) -> Seq<Orbit> {
    all.map_values(|o: OrbitRelation| o@)
}

/// The orbit that a text denotes: the name of the parent, a closing bracket
/// and the name of the object. What follows a second bracket is not looked
/// at.
pub open spec fn orbit(s: Seq<char>) -> Option<Orbit> {
    let parts = split(s, ')');
    if parts.len() >= 2 {
        Some(Orbit { ident: parts[1], parent: parts[0] })
    } else {
        None
    }
}

/// The orbits that the lines denote, if each of them denotes one.
pub open spec fn all_orbits(all: Seq<Seq<char>>) -> Option<Seq<Orbit>> {
    if forall|i: int| 0 <= i < all.len() ==> (#[trigger] orbit(all[i])) is Some {
        Some(Seq::new(all.len(), |i: int| orbit(all[i]).unwrap()))
    } else {
        None
    }
}

/// The names in the first `n` orbits, each once, in the order in which they
/// come up, the parent of an orbit before its object. The place of a name in
/// this list is the number that stands for the object.
pub open spec fn names(all: Seq<Orbit>, n: int) -> Seq<Seq<char>>
    decreases n,
{
    if n <= 0 {
        Seq::empty()
    } else {
        with_name(with_name(names(all, n - 1), all[n - 1].parent), all[n - 1].ident)
    }
}

/// The lists with empty lists behind them, up to the length `len`.
pub open spec fn padded(rows: Seq<Seq<usize>>, len: int) -> Seq<Seq<usize>> {
    rows + Seq::new(
        if len > rows.len() {
            (len - rows.len()) as nat
        } else {
            0
        },
        |i: int| Seq::<usize>::empty(),
    )
}

/// For each object in the first `n` orbits, the objects linked to it, in the
/// order of the orbits: the objects in orbit around it and, if `both` is set,
/// the object that it orbits.
pub open spec fn links(all: Seq<Orbit>, n: int, both: bool) -> Seq<Seq<usize>>
    decreases n,
{
    if n <= 0 {
        Seq::empty()
    } else {
        let known = names(all, n);
        let parent = place(known, all[n - 1].parent);
        let ident = place(known, all[n - 1].ident);
        let before = padded(links(all, n - 1, both), known.len() as int);
        let down = before.update(parent, before[parent].push(ident as usize));
        if both {
            down.update(ident, down[ident].push(parent as usize))
        } else {
            down
        }
    }
}

/// The views of a sequence of lists.
pub open spec fn rows(map: Seq<Vec<usize>>) -> Seq<Seq<usize>> {
    map.map_values(|row: Vec<usize>| row@)
}

/// The sum of two counts, if both are there and the sum fits in 32 bits.
pub open spec fn sum(a: Option<u32>, b: Option<u32>) -> Option<u32> {
    match (a, b) {
        (Some(a), Some(b)) => if a + b <= u32::MAX {
            Some((a + b) as u32)
        } else {
            None
        },
        _ => None,
    }
}

/// The number of orbits below an object at depth `i`, the object's own `i`
/// counted: `i` plus the weights of the objects in orbit around it, which are
/// one deeper. An object without a list weighs `i`.
///
/// There is no weight if the objects lie more than `fuel` deep, as they do
/// if an object orbits itself, or if a count does not fit in 32 bits.
pub open spec fn weight(map: Seq<Seq<usize>>, ident: int, i: u32, fuel: nat) -> Option<u32>
    decreases fuel, 0nat,
{
    if fuel == 0 {
        None
    } else if 0 <= ident < map.len() {
        sum(weights(map, map[ident], map[ident].len(), i, (fuel - 1) as nat), Some(i))
    } else {
        Some(i)
    }
}

/// The weights of the first `n` objects of a list together, each at a depth
/// one below `i`.
pub open spec fn weights(map: Seq<Seq<usize>>, list: Seq<usize>, n: nat, i: u32, fuel: nat) -> Option<
    u32,
>
    decreases fuel, n + 1,
{
    if n == 0 {
        Some(0)
    } else if i == u32::MAX {
        None
    } else {
        sum(
            weights(map, list, (n - 1) as nat, i, fuel),
            weight(map, list[n - 1] as int, (i + 1) as u32, fuel),
        )
    }
}

/// The graph of the orbits: its nodes are the numbers of the objects, and the
/// successors of each are the objects linked to it in either direction.
pub open spec fn orbit_graph(all: Seq<Orbit>) -> Map<u64, Seq<u64>> {
    Map::new(
        |k: u64| k < names(all, all.len() as int).len(),
        |k: u64| links(all, all.len() as int, true)[k as int].map_values(|id: usize| id as u64),
    )
}

/// Whether `r` is what [`calc_dist`] returns for two objects: the number of
/// objects on a shortest way from one to the other, both counted. There is
/// none if one of the names does not occur, or if there is no way.
pub open spec fn is_dist(all: Seq<Orbit>, start: Seq<char>, end: Seq<char>, r: Option<usize>) -> bool {
    let known = names(all, all.len() as int);
    if place(known, start) < known.len() && place(known, end) < known.len() {
        match r {
            Some(n) => is_shortest(
                orbit_graph(all),
                place(known, start) as u64,
                place(known, end) as u64,
                n as nat,
            ),
            None => is_cut_off(orbit_graph(all), place(known, start) as u64, place(known, end) as u64),
        }
    } else {
        r is None
    }
}

impl OrbitRelation {
    /// Reads an orbit from its characters.
    pub fn parse(s: &Vec<char>) -> (r: Option<OrbitRelation>)
        ensures
            match r {
                Some(o) => orbit(s@) == Some(o@),
                None => orbit(s@) is None,
            },
    {
        let parts = split_at(s, ')');
        if parts.len() < 2 {
            return None;
        }
        assert(views(parts@)[0] == parts@[0]@);
        assert(views(parts@)[1] == parts@[1]@);
        Some(OrbitRelation { ident: string_of(&parts[1]), parent: string_of(&parts[0]) })
    }

    /// Reads an orbit from its text.
    pub fn from_str(s: &str) -> (r: Option<OrbitRelation>)
        ensures
            match r {
                Some(o) => orbit(s@) == Some(o@),
                None => orbit(s@) is None,
            },
    {
        OrbitRelation::parse(&chars(s))
    }
}

/// Reads the orbits, one to a line.
pub fn input_generator(input: &str) -> (r: Option<Vec<OrbitRelation>>)
    ensures
        match r {
            Some(all) => all_orbits(lines(input@)) == Some(orbits(all@)),
            None => all_orbits(lines(input@)) is None,
        },
{
    let text = chars(input);
    let lines = split_lines(&text);
    let mut all: Vec<OrbitRelation> = Vec::new();
    let mut i: usize = 0;
    while i < lines.len()
        invariant
            i <= lines.len(),
            views(lines@) == crate::text::lines(input@),
            all@.len() == i,
            forall|j: int| 0 <= j < i ==> orbit(#[trigger] views(lines@)[j]) == Some(all@[j]@),
        decreases lines.len() - i,
    {
        assert(views(lines@)[i as int] == lines@[i as int]@);
        match OrbitRelation::parse(&lines[i]) {
            Some(o) => {
                all.push(o);
            },
            None => {
                return None;
            },
        }
        i += 1;
    }
    proof {
        assert(orbits(all@) =~= all_orbits(crate::text::lines(input@)).unwrap());
    }
    Some(all)
}

/// Adds empty lists up to the length `len`.
fn pad(map: &mut Vec<Vec<usize>>, len: usize)
    ensures
        rows(final(map)@) == padded(rows(old(map)@), len as int),
        final(map)@.len() == if len > old(map)@.len() {
            len as int
        } else {
            old(map)@.len() as int
        },
{
    let ghost before = rows(map@);
    while map.len() < len
        invariant
            before == rows(old(map)@),
            map@.len() <= len || map@.len() == before.len(),
            before.len() <= map@.len(),
            rows(map@) == before + Seq::new(
                (map@.len() - before.len()) as nat,
                |i: int| Seq::<usize>::empty(),
            ),
        decreases len - map.len(),
    {
        let ghost so_far = map@;
        map.push(Vec::new());
        proof {
            assert(rows(map@) =~= rows(so_far).push(Seq::<usize>::empty()));
            assert(rows(map@) =~= before + Seq::new(
                (map@.len() - before.len()) as nat,
                |i: int| Seq::<usize>::empty(),
            ));
        }
    }
    proof {
        assert(rows(map@) =~= padded(before, len as int));
    }
}

/// Puts `value` behind the list at `at`.
fn link(map: &mut Vec<Vec<usize>>, at: usize, value: usize)
    requires
        at < old(map).len(),
    ensures
        rows(final(map)@) == rows(old(map)@).update(at as int, rows(old(map)@)[at as int].push(value)),
        final(map)@.len() == old(map)@.len(),
{
    let ghost before = map@;
    map[at].push(value);
    proof {
        assert(rows(map@) =~= rows(before).update(at as int, rows(before)[at as int].push(value)));
    }
}

/// Numbers the objects and lists, for each, the objects linked to it.
pub fn chart(input: &[OrbitRelation], both: bool) -> (r: (Vec<String>, Vec<Vec<usize>>))
    ensures
        texts(r.0@) == names(orbits(input@), input@.len() as int),
        rows(r.1@) == links(orbits(input@), input@.len() as int, both),
        r.1@.len() == r.0@.len(),
{
    let mut known: Vec<String> = Vec::new();
    let mut map: Vec<Vec<usize>> = Vec::new();
    let mut n: usize = 0;
    proof {
        assert(texts(known@) =~= names(orbits(input@), 0));
        assert(rows(map@) =~= links(orbits(input@), 0, both));
    }
    while n < input.len()
        invariant
            n <= input.len(),
            texts(known@) == names(orbits(input@), n as int),
            rows(map@) == links(orbits(input@), n as int, both),
            map@.len() == known@.len(),
        decreases input.len() - n,
    {
        let or = &input[n];
        assert(orbits(input@)[n as int] == or@);
        let ghost before = texts(known@);
        intern(&mut known, &or.parent);
        intern(&mut known, &or.ident);
        let parent = find(&known, &or.parent);
        let ident = find(&known, &or.ident);
        proof {
            lemma_place_bounds(before, or.parent@);
            lemma_place_bounds(with_name(before, or.parent@), or.ident@);
            lemma_with_name_keeps(before, or.parent@, or.parent@);
            lemma_with_name_keeps(with_name(before, or.parent@), or.ident@, or.parent@);
            lemma_with_name_keeps(with_name(before, or.parent@), or.ident@, or.ident@);
        }
        pad(&mut map, known.len());
        link(&mut map, parent, ident);
        if both {
            link(&mut map, ident, parent);
        }
        n += 1;
    }
    (known, map)
}

/// A name that is put in a list occurs in it afterwards, and a name that
/// occurs in a list keeps its place when another is put in.
pub proof fn lemma_with_name_keeps(list: Seq<Seq<char>>, added: Seq<char>, name: Seq<char>)
    ensures
        with_name(list, added).len() >= list.len(),
        place(with_name(list, added), added) < with_name(list, added).len(),
        place(list, name) < list.len() ==> place(with_name(list, added), name) == place(list, name),
{
    lemma_place_bounds(list, added);
    lemma_place_bounds(list, name);
    lemma_place_bounds(with_name(list, added), added);
    let longer = with_name(list, added);
    if place(list, added) >= list.len() {
        lemma_place_of_first(list, added);
        crate::text::lemma_place(longer, added, list.len() as int);
    }
    if place(list, name) < list.len() {
        lemma_place_of_first(list, name);
        crate::text::lemma_place(longer, name, place(list, name));
    }
}

/// Before its place a name does not occur.
pub proof fn lemma_place_of_first(list: Seq<Seq<char>>, name: Seq<char>)
    ensures
        forall|j: int| 0 <= j < place(list, name) && j < list.len() ==> #[trigger] list[j] != name,
    decreases list.len(),
{
    if list.len() > 0 && list[0] != name {
        let rest = list.drop_first();
        lemma_place_of_first(rest, name);
        assert forall|j: int| 0 <= j < place(list, name) && j < list.len() implies #[trigger] list[j]
            != name by {
            if j > 0 {
                assert(rest[j - 1] == list[j]);
            }
        }
    }
}

/// The sum of two counts.
fn add_counts(a: Option<u32>, b: Option<u32>) -> (r: Option<u32>)
    ensures
        r == sum(a, b),
{
    match (a, b) {
        (Some(a), Some(b)) => a.checked_add(b),
        _ => None,
    }
}

/// The weight of an object at depth `i`, with the depth below it limited to
/// `fuel`.
pub fn weigh(map: &Vec<Vec<usize>>, ident: usize, i: u32, fuel: usize) -> (r: Option<u32>)
    ensures
        r == weight(rows(map@), ident as int, i, fuel as nat),
    decreases fuel,
{
    if fuel == 0 {
        return None;
    }
    if ident >= map.len() {
        return Some(i);
    }
    let list = &map[ident];
    assert(rows(map@)[ident as int] == list@);
    let mut total: Option<u32> = Some(0);
    let mut n: usize = 0;
    while n < list.len()
        invariant
            n <= list.len(),
            fuel > 0,
            total == weights(rows(map@), list@, n as nat, i, (fuel - 1) as nat),
        decreases list.len() - n,
    {
        if i == u32::MAX {
            total = None;
        } else {
            total = add_counts(total, weigh(map, list[n], i + 1, fuel - 1));
        }
        n += 1;
    }
    add_counts(total, Some(i))
}

/// The number of orbits below an object at depth `i`, the object's own `i`
/// counted. The objects may lie as deep as there are lists.
pub fn calc_weight(map: &Vec<Vec<usize>>, ident: usize, i: u32) -> (r: Option<u32>)
    ensures
        r == weight(
            rows(map@),
            ident as int,
            i,
            if map@.len() < usize::MAX {
                (map@.len() + 1) as nat
            } else {
                map@.len()
            },
        ),
{
    let fuel: usize = if map.len() < usize::MAX {
        map.len() + 1
    } else {
        map.len()
    };
    weigh(map, ident, i, fuel)
}

/// The number of objects on a shortest way from one object to another, both
/// counted.
pub fn calc_dist(input: &[OrbitRelation], start: &String, end: &String) -> (r: Option<usize>)
    ensures
        is_dist(orbits(input@), start@, end@, r),
{
    let (known, map) = chart(input, true);
    let from = find(&known, start);
    let to = find(&known, end);
    if from >= known.len() || to >= known.len() {
        return None;
    }
    let mut graph: HashMap<u64, Vec<u64>> = HashMap::new();
    let mut k: usize = 0;
    while k < map.len()
        invariant
            k <= map.len(),
            forall|id: u64| graph@.contains_key(id) <==> id < k,
            forall|id: u64|
                id < k ==> (#[trigger] graph@[id])@ == rows(map@)[id as int].map_values(
                    |id: usize| id as u64,
                ),
        decreases map.len() - k,
    {
        let row = &map[k];
        assert(rows(map@)[k as int] == row@);
        let mut list: Vec<u64> = Vec::new();
        let mut j: usize = 0;
        while j < row.len()
            invariant
                j <= row.len(),
                list@.len() == j,
                forall|m: int| 0 <= m < j ==> #[trigger] list@[m] == row@[m] as u64,
            decreases row.len() - j,
        {
            list.push(row[j] as u64);
            j += 1;
        }
        proof {
            assert(list@ =~= row@.map_values(|id: usize| id as u64));
        }
        graph.insert(k as u64, list);
        k += 1;
    }
    proof {
        assert(lists(graph@) =~= orbit_graph(orbits(input@)));
    }
    distance(&graph, from as u64, to as u64)
}

/// The number of direct and indirect orbits: the weight of the object COM at
/// depth 0.
pub fn part_one(input: &[OrbitRelation]) -> (r: Option<u32>)
    ensures
        r == ({
            let all = orbits(input@);
            let known = names(all, all.len() as int);
            weight(
                links(all, all.len() as int, false),
                place(known, "COM"@),
                0,
                if known.len() < usize::MAX {
                    (known.len() + 1) as nat
                } else {
                    known.len()
                },
            )
        }),
{
    let (known, map) = chart(input, false);
    let com = string_of(&chars("COM"));
    calc_weight(&map, find(&known, &com), 0)
}

/// The number of steps from the object that YOU orbits to the object that
/// SAN orbits: three less than the number of objects on a shortest way from
/// YOU to SAN. `None` if there is no such way, or if it has fewer than
/// three objects.
pub fn part_two(input: &[OrbitRelation]) -> (r: Option<usize>)
    ensures
        match r {
            Some(n) => is_dist(orbits(input@), "YOU"@, "SAN"@, Some((n + 3) as usize)),
            None => is_dist(orbits(input@), "YOU"@, "SAN"@, None) || exists|n: usize|
                n < 3 && #[trigger] is_dist(orbits(input@), "YOU"@, "SAN"@, Some(n)),
        },
{
    let you = string_of(&chars("YOU"));
    let san = string_of(&chars("SAN"));
    match calc_dist(input, &you, &san) {
        Some(n) => {
            if n >= 3 {
                Some(n - 3)
            } else {
                None
            }
        },
        None => None,
    }
}

} // verus!
