//! Reactions that turn ore into fuel: the ore that one unit of fuel takes,
//! and the fuel that a trillion units of ore give.

use crate::text::{
    chars, find, intern, is_number, lemma_place_bounds, lines, number, parse_number, place, split,
    split_at, split_lines, string_of, texts, views, with_name,
};
use vstd::prelude::*;

verus! {

/// The ore at hand in the second part.
pub const ORE_AT_HAND: i64 = 1_000_000_000_000;

/// An amount of a chemical. Two amounts are equal if they are amounts of the
/// same chemical.
#[derive(Debug, Clone)]
pub struct Chemical {
    /// The number of units.
    pub quantity: i64,
    /// The name of the chemical.
    pub ident: String,
}

impl PartialEq for Chemical {
    fn eq(&self, other: &Self) -> (same: bool) {
        self.ident == other.ident
    }
}

impl Eq for Chemical {

}

impl vstd::std_specs::cmp::PartialEqSpecImpl for Chemical {
    open spec fn obeys_eq_spec() -> bool {
        true
    }

    open spec fn eq_spec(&self, other: &Self) -> bool {
        self.ident@ == other.ident@
    }
}

/// A reaction: what goes in and what comes out.
#[derive(Debug, Clone)]
pub struct Recipe {
    /// The amounts that the reaction takes.
    pub input: Vec<Chemical>,
    /// The amount that the reaction gives.
    pub output: Chemical,
}

/// An amount of a chemical as a value.
pub struct Amount {
    /// The number of units.
    pub quantity: i64,
    /// The name of the chemical.
    pub ident: Seq<char>,
}

/// A reaction as a value.
pub struct Formula {
    /// The amounts that the reaction takes.
    pub input: Seq<Amount>,
    /// The amount that the reaction gives.
    pub output: Amount,
}

impl View for Chemical {
    type V = Amount;

    open spec fn view(&self) -> Amount {
        Amount { quantity: self.quantity, ident: self.ident@ }
    }
}

/// The views of a sequence of amounts.
pub open spec fn amounts(list: Seq<Chemical>) -> Seq<Amount> {
    list.map_values(|c: Chemical| c@)
}

impl View for Recipe {
    type V = Formula;

    open spec fn view(&self) -> Formula {
        Formula { input: amounts(self.input@), output: self.output@ }
    }
}

/// The views of a sequence of reactions.
pub open spec fn formulas(all: Seq<Recipe>) -> Seq<Formula> {
    all.map_values(|r: Recipe| r@)
}

/// Whether `s` is the name of a chemical: capital letters, at least one.
pub open spec fn is_name(s: Seq<char>) -> bool {
    s.len() > 0 && forall|i: int| 0 <= i < s.len() ==> 'A' <= #[trigger] s[i] <= 'Z'
}

/// The amount that a number and a name denote.
pub open spec fn amount(digits: Seq<char>, name: Seq<char>) -> Option<Amount> {
    if is_number(digits) && number(digits) <= i64::MAX && is_name(name) {
        Some(Amount { quantity: number(digits) as i64, ident: name })
    } else {
        None
    }
}

/// Input `j` of the `k` inputs of a reaction whose text has the words
/// `words`: a number and a name, with a comma behind the name of each input
/// but the last.
pub open spec fn ingredient(words: Seq<Seq<char>>, j: int, k: int) -> Option<Amount> {
    if j < k - 1 {
        if words[2 * j + 1].len() > 0 && words[2 * j + 1].last() == ',' {
            amount(words[2 * j], words[2 * j + 1].drop_last())
        } else {
            None
        }
    } else {
        amount(words[2 * j], words[2 * j + 1])
    }
}

/// The reaction that a text denotes. The text has the form
/// `7 A, 1 B => 1 C`: one input or more, with single blanks between the
/// words and nothing before or behind them.
pub open spec fn formula(s: Seq<char>) -> Option<Formula> {
    let words = split(s, ' ');
    let k = (words.len() - 3) / 2;
    if words.len() >= 5 && words.len() % 2 == 1 && words[2 * k] == seq!['=', '>'] && amount(
        words[2 * k + 1],
        words[2 * k + 2],
    ) is Some && forall|j: int| 0 <= j < k ==> (#[trigger] ingredient(words, j, k)) is Some {
        Some(
            Formula {
                input: Seq::new(k as nat, |j: int| ingredient(words, j, k).unwrap()),
                output: amount(words[2 * k + 1], words[2 * k + 2]).unwrap(),
            },
        )
    } else {
        None
    }
}

/// The reactions that the lines denote, if each of them denotes one.
pub open spec fn all_formulas(all: Seq<Seq<char>>) -> Option<Seq<Formula>> {
    if forall|i: int| 0 <= i < all.len() ==> (#[trigger] formula(all[i])) is Some {
        Some(Seq::new(all.len(), |i: int| formula(all[i]).unwrap()))
    } else {
        None
    }
}

/// The list of names with the names of the first `n` inputs added.
pub open spec fn with_inputs(list: Seq<Seq<char>>, input: Seq<Amount>, n: int) -> Seq<Seq<char>>
    decreases n,
{
    if n <= 0 {
        list
    } else {
        with_name(with_inputs(list, input, n - 1), input[n - 1].ident)
    }
}

/// The names in the first `n` reactions, each once, in the order in which
/// they come up, the output of a reaction before its inputs. The place of a
/// name in this list is the number that stands for the chemical.
pub open spec fn names(all: Seq<Formula>, n: int) -> Seq<Seq<char>>
    decreases n,
{
    if n <= 0 {
        Seq::empty()
    } else {
        with_inputs(
            with_name(names(all, n - 1), all[n - 1].output.ident),
            all[n - 1].input,
            all[n - 1].input.len() as int,
        )
    }
}

/// Among the first `n` reactions, the first that gives the chemical `id`.
pub open spec fn first_giving(all: Seq<Formula>, known: Seq<Seq<char>>, id: int, n: int) -> Option<
    int,
>
    decreases n,
{
    if n <= 0 {
        None
    } else {
        match first_giving(all, known, id, n - 1) {
            Some(j) => Some(j),
            None => if place(known, all[n - 1].output.ident) == id {
                Some(n - 1)
            } else {
                None
            },
        }
    }
}

/// Among the first `n` reactions, the last that gives the chemical `id`.
pub open spec fn last_giving(all: Seq<Formula>, known: Seq<Seq<char>>, id: int, n: int) -> Option<
    int,
>
    decreases n,
{
    if n <= 0 {
        None
    } else if place(known, all[n - 1].output.ident) == id {
        Some(n - 1)
    } else {
        last_giving(all, known, id, n - 1)
    }
}

/// The inputs of a reaction, with numbers for the names.
pub open spec fn numbered(known: Seq<Seq<char>>, input: Seq<Amount>) -> Seq<(usize, i64)> {
    Seq::new(input.len(), |j: int| (place(known, input[j].ident) as usize, input[j].quantity))
}

/// The reactions by the number of the chemical that they give.
pub struct Plant {
    /// The names of the chemicals.
    pub names: Seq<Seq<char>>,
    /// For each chemical, the number of units that one run of its reaction
    /// gives, if there is a reaction for it.
    pub provided: Seq<Option<i64>>,
    /// For each chemical, the inputs of its reaction.
    pub inputs: Seq<Seq<(usize, i64)>>,
}

/// The plant for the reactions. Where several reactions give the same
/// chemical, the first says how much of it a run gives and the last what a
/// run takes.
pub open spec fn plant(all: Seq<Formula>) -> Plant {
    let known = names(all, all.len() as int);
    Plant {
        names: known,
        provided: Seq::new(
            known.len(),
            |id: int|
                match first_giving(all, known, id, all.len() as int) {
                    Some(j) => Some(all[j].output.quantity),
                    None => None,
                },
        ),
        inputs: Seq::new(
            known.len(),
            |id: int|
                match last_giving(all, known, id, all.len() as int) {
                    Some(j) => numbered(known, all[j].input),
                    None => Seq::empty(),
                },
        ),
    }
}

/// A number as a machine integer, if it fits in 64 bits.
pub open spec fn fits(a: int) -> Option<i64> {
    if i64::MIN <= a <= i64::MAX {
        Some(a as i64)
    } else {
        None
    }
}

/// The sum of two amounts of ore, if both are there and the sum fits in 64
/// bits.
pub open spec fn total(a: Option<i64>, b: Option<i64>) -> Option<i64> {
    match (a, b) {
        (Some(a), Some(b)) => fits(a + b),
        _ => None,
    }
}

/// The number of runs of a reaction giving `provided` units that give at
/// least `needed` units.
pub open spec fn runs(needed: int, provided: int) -> int {
    needed / provided + if needed % provided > 0 {
        1int
    } else {
        0int
    }
}

impl Plant {
    /// The stock and the ore that it takes to get `quantity` units of the
    /// chemical `chem`, with `stock` at hand at first.
    ///
    /// What the stock lacks is made by as many runs of the reaction as it
    /// takes; what they give beyond the quantity stays in stock. Each input
    /// of the reaction is needed once for each run. The input ORE is counted;
    /// any other is got in the same way, from the stock as it then is.
    ///
    /// There is no amount if the chemical has no reaction, if its reaction
    /// gives no units, if the reactions lie more than `fuel` deep, or if a
    /// number does not fit in 64 bits; the stock is then left as it stood
    /// when that was found.
    pub open spec fn ore(self, stock: Seq<i64>, chem: int, quantity: i64, fuel: nat) -> (
        Seq<i64>,
        Option<i64>,
    )
        decreases fuel, 0nat,
    {
        if fuel == 0 || !(0 <= chem < self.provided.len()) || chem >= stock.len() || chem
            >= self.inputs.len() {
            (stock, None)
        } else {
            match self.provided[chem] {
                None => (stock, None),
                Some(provided) => {
                    let needed = if quantity - stock[chem] > 0 {
                        quantity - stock[chem]
                    } else {
                        0
                    };
                    let times = runs(needed, provided as int);
                    let left = stock[chem] + provided * times - quantity;
                    if provided <= 0 || fits(needed) is None || fits(provided * times) is None
                        || fits(stock[chem] + provided * times) is None || fits(left) is None {
                        (stock, None)
                    } else {
                        self.ore_for(
                            stock.update(chem, left as i64),
                            self.inputs[chem],
                            self.inputs[chem].len(),
                            times as i64,
                            (fuel - 1) as nat,
                        )
                    }
                },
            }
        }
    }

    /// The stock and the ore that it takes to get the first `n` inputs of a
    /// reaction for `times` runs.
    pub open spec fn ore_for(
        self,
        stock: Seq<i64>,
        list: Seq<(usize, i64)>,
        n: nat,
        times: i64,
        fuel: nat,
    ) -> (Seq<i64>, Option<i64>)
        decreases fuel, n + 1,
    {
        if n == 0 {
            (stock, Some(0))
        } else {
            let (stock, before) = self.ore_for(stock, list, (n - 1) as nat, times, fuel);
            let (id, quantity) = list[n - 1];
            if before is None || fits(quantity * times) is None {
                (stock, None)
            } else if id == place(self.names, "ORE"@) {
                (stock, total(before, fits(quantity * times)))
            } else {
                let (stock, here) = self.ore(stock, id as int, (quantity * times) as i64, fuel);
                (stock, total(before, here))
            }
        }
    }

    /// The ore that `amount` units of FUEL take, starting without stock. The
    /// reactions may lie as deep as there are chemicals.
    pub open spec fn cost(self, amount: i64) -> Option<i64> {
        self.ore(
            Seq::new(self.names.len(), |i: int| 0i64),
            place(self.names, "FUEL"@),
            amount,
            self.names.len(),
        ).1
    }

    /// Whether the ore at hand suffices for `amount` units of FUEL.
    pub open spec fn affordable(self, amount: i64) -> bool {
        self.cost(amount) matches Some(ore) && ore <= ORE_AT_HAND
    }

    /// The amount that halving the range from `low` to `high` ends at: the
    /// range is halved for as long as it holds more than one amount, and its
    /// upper half is kept if the amount in the middle is affordable.
    pub open spec fn search(self, low: i64, high: i64) -> i64
        decreases high - low,
    {
        if high - low <= 1 {
            low
        } else {
            let middle = (low + (high - low) / 2) as i64;
            if self.affordable(middle) {
                self.search(middle, high)
            } else {
                self.search(low, middle)
            }
        }
    }
}

/// Halving a range whose lower end is affordable and whose upper end is not
/// ends at an affordable amount whose successor is not affordable.
pub proof fn lemma_search_brackets(plant: Plant, low: i64, high: i64)
    requires
        low < high,
        plant.affordable(low),
        !plant.affordable(high),
    ensures
        low <= plant.search(low, high) < high,
        plant.affordable(plant.search(low, high)),
        !plant.affordable((plant.search(low, high) + 1) as i64),
    decreases high - low,
{
    if high - low > 1 {
        let middle = (low + (high - low) / 2) as i64;
        if plant.affordable(middle) {
            lemma_search_brackets(plant, middle, high);
        } else {
            lemma_search_brackets(plant, low, middle);
        }
    }
}

/// The reactions, numbered and laid out for looking up.
#[derive(Debug)]
pub struct Reactions {
    names: Vec<String>,
    provided: Vec<Option<i64>>,
    inputs: Vec<Vec<(usize, i64)>>,
}

impl View for Reactions {
    type V = Plant;

    closed spec fn view(&self) -> Plant {
        Plant {
            names: texts(self.names@),
            provided: self.provided@,
            inputs: self.inputs@.map_values(|list: Vec<(usize, i64)>| list@),
        }
    }
}

/// Whether the characters are the name of a chemical.
fn check_name(s: &Vec<char>) -> (ok: bool)
    ensures
        ok == is_name(s@),
{
    let mut i: usize = 0;
    while i < s.len()
        invariant
            i <= s.len(),
            forall|j: int| 0 <= j < i ==> 'A' <= #[trigger] s@[j] <= 'Z',
        decreases s.len() - i,
    {
        if s[i] < 'A' || s[i] > 'Z' {
            return false;
        }
        i += 1;
    }
    s.len() > 0
}

/// The characters without the last.
fn without_last(s: &Vec<char>) -> (r: Vec<char>)
    requires
        s.len() > 0,
    ensures
        r@ == s@.drop_last(),
{
    let mut r: Vec<char> = Vec::new();
    let mut i: usize = 0;
    while i < s.len() - 1
        invariant
            i <= s.len() - 1,
            r@ == s@.take(i as int),
        decreases s.len() - 1 - i,
    {
        r.push(s[i]);
        proof {
            assert(s@.take(i + 1) =~= s@.take(i as int).push(s@[i as int]));
        }
        i += 1;
    }
    proof {
        assert(s@.take(s@.len() - 1) =~= s@.drop_last());
    }
    r
}

impl Chemical {
    /// Reads an amount from a number and a name.
    pub fn parse(digits: &Vec<char>, name: &Vec<char>) -> (r: Option<Chemical>)
        ensures
            match r {
                Some(c) => amount(digits@, name@) == Some(c@),
                None => amount(digits@, name@) is None,
            },
    {
        let quantity: i64 = match parse_number(digits, 0x7fff_ffff_ffff_ffff) {
            Some(q) => q as i64,
            None => {
                return None;
            },
        };
        if !check_name(name) {
            return None;
        }
        Some(Chemical { quantity, ident: string_of(name) })
    }
}

impl Recipe {
    /// Reads a reaction from its characters.
    pub fn parse(s: &Vec<char>) -> (r: Option<Recipe>)
        ensures
            match r {
                Some(recipe) => formula(s@) == Some(recipe@),
                None => formula(s@) is None,
            },
    {
        let words = split_at(s, ' ');
        if words.len() < 5 || words.len() % 2 != 1 {
            return None;
        }
        let k: usize = (words.len() - 3) / 2;
        assert(views(words@)[2 * k] == words@[2 * k]@);
        assert(views(words@)[2 * k + 1] == words@[2 * k + 1]@);
        assert(views(words@)[2 * k + 2] == words@[2 * k + 2]@);
        let arrow = &words[2 * k];
        if arrow.len() != 2 || arrow[0] != '=' || arrow[1] != '>' {
            proof {
                if views(words@)[2 * k] == seq!['=', '>'] {
                    assert(arrow@[0] == '=' && arrow@[1] == '>');
                }
            }
            return None;
        }
        assert(arrow@ =~= seq!['=', '>']);
        let output = match Chemical::parse(&words[2 * k + 1], &words[2 * k + 2]) {
            Some(c) => c,
            None => {
                return None;
            },
        };
        let mut input: Vec<Chemical> = Vec::new();
        let mut j: usize = 0;
        while j < k
            invariant
                j <= k,
                words.len() == 2 * k + 3,
                k == (words@.len() - 3) / 2,
                views(words@) == split(s@, ' '),
                input@.len() == j,
                forall|m: int|
                    0 <= m < j ==> (#[trigger] ingredient(views(words@), m, k as int)) == Some(
                        input@[m]@,
                    ),
            decreases k - j,
        {
            assert(views(words@)[2 * j] == words@[2 * j]@);
            assert(views(words@)[2 * j + 1] == words@[2 * j + 1]@);
            let name = &words[2 * j + 1];
            let c = if j < k - 1 {
                if name.len() == 0 || name[name.len() - 1] != ',' {
                    assert(ingredient(views(words@), j as int, k as int) is None);
                    return None;
                }
                Chemical::parse(&words[2 * j], &without_last(name))
            } else {
                Chemical::parse(&words[2 * j], name)
            };
            match c {
                Some(c) => {
                    input.push(c);
                },
                None => {
                    assert(ingredient(views(words@), j as int, k as int) is None);
                    return None;
                },
            }
            j += 1;
        }
        let recipe = Recipe { input, output };
        proof {
            assert(recipe@.input =~= formula(s@).unwrap().input);
        }
        Some(recipe)
    }

    /// Reads a reaction from its text.
    pub fn from_str(input: &str) -> (r: Option<Recipe>)
        ensures
            match r {
                Some(recipe) => formula(input@) == Some(recipe@),
                None => formula(input@) is None,
            },
    {
        Recipe::parse(&chars(input))
    }
}

/// Reads the reactions, one to a line.
pub fn input_generator(input: &str) -> (r: Option<Vec<Recipe>>)
    ensures
        match r {
            Some(all) => all_formulas(lines(input@)) == Some(formulas(all@)),
            None => all_formulas(lines(input@)) is None,
        },
{
    let text = chars(input);
    let rows = split_lines(&text);
    let mut all: Vec<Recipe> = Vec::new();
    let mut i: usize = 0;
    while i < rows.len()
        invariant
            i <= rows.len(),
            views(rows@) == lines(input@),
            all@.len() == i,
            forall|j: int| 0 <= j < i ==> formula(#[trigger] views(rows@)[j]) == Some(all@[j]@),
        decreases rows.len() - i,
    {
        assert(views(rows@)[i as int] == rows@[i as int]@);
        match Recipe::parse(&rows[i]) {
            Some(recipe) => {
                all.push(recipe);
            },
            None => {
                return None;
            },
        }
        i += 1;
    }
    proof {
        assert(formulas(all@) =~= all_formulas(lines(input@)).unwrap());
    }
    Some(all)
}

/// Once an input cannot be got, the ore for the inputs stays without amount
/// and the stock as it stood.
pub proof fn lemma_ore_for_fails(
    plant: Plant,
    stock: Seq<i64>,
    list: Seq<(usize, i64)>,
    n: nat,
    m: nat,
    times: i64,
    fuel: nat,
)
    requires
        n <= m,
        plant.ore_for(stock, list, n, times, fuel).1 is None,
    ensures
        plant.ore_for(stock, list, m, times, fuel) == plant.ore_for(stock, list, n, times, fuel),
    decreases m,
{
    if n < m {
        lemma_ore_for_fails(plant, stock, list, n, (m - 1) as nat, times, fuel);
    }
}

impl Reactions {
    /// Numbers the chemicals and lays the reactions out by the number of the
    /// chemical that they give.
    pub fn new(recipes: &[Recipe]) -> (reactions: Reactions)
        ensures
            reactions@ == plant(formulas(recipes@)),
    {
        let ghost all = formulas(recipes@);
        let mut names: Vec<String> = Vec::new();
        let mut n: usize = 0;
        proof {
            assert(texts(names@) =~= crate::day14::names(all, 0));
        }
        while n < recipes.len()
            invariant
                n <= recipes.len(),
                all == formulas(recipes@),
                texts(names@) == crate::day14::names(all, n as int),
            decreases recipes.len() - n,
        {
            let recipe = &recipes[n];
            assert(all[n as int] == recipe@);
            intern(&mut names, &recipe.output.ident);
            let mut j: usize = 0;
            while j < recipe.input.len()
                invariant
                    j <= recipe.input.len(),
                    n < recipes.len(),
                    all == formulas(recipes@),
                    all[n as int] == recipe@,
                    texts(names@) == with_inputs(
                        with_name(crate::day14::names(all, n as int), recipe@.output.ident),
                        recipe@.input,
                        j as int,
                    ),
                decreases recipe.input.len() - j,
            {
                assert(recipe@.input[j as int] == recipe.input@[j as int]@);
                intern(&mut names, &recipe.input[j].ident);
                j += 1;
            }
            n += 1;
        }
        let ghost known = texts(names@);
        let mut provided: Vec<Option<i64>> = Vec::new();
        let mut inputs: Vec<Vec<(usize, i64)>> = Vec::new();
        let mut id: usize = 0;
        while id < names.len()
            invariant
                id <= names.len(),
                provided@.len() == id,
                inputs@.len() == id,
                forall|i: int| 0 <= i < id ==> (#[trigger] provided@[i]) is None,
                forall|i: int| 0 <= i < id ==> (#[trigger] inputs@[i])@.len() == 0,
            decreases names.len() - id,
        {
            provided.push(None);
            inputs.push(Vec::new());
            id += 1;
        }
        let mut n: usize = 0;
        while n < recipes.len()
            invariant
                n <= recipes.len(),
                all == formulas(recipes@),
                known == texts(names@),
                known == crate::day14::names(all, all.len() as int),
                provided@.len() == names@.len(),
                inputs@.len() == names@.len(),
                forall|i: int|
                    0 <= i < names@.len() ==> #[trigger] provided@[i] == match first_giving(
                        all,
                        known,
                        i,
                        n as int,
                    ) {
                        Some(f) => Some(all[f].output.quantity),
                        None => None,
                    },
                forall|i: int|
                    0 <= i < names@.len() ==> (#[trigger] inputs@[i])@ == match last_giving(
                        all,
                        known,
                        i,
                        n as int,
                    ) {
                        Some(l) => numbered(known, all[l].input),
                        None => Seq::empty(),
                    },
            decreases recipes.len() - n,
        {
            let recipe = &recipes[n];
            assert(all[n as int] == recipe@);
            let id = find(&names, &recipe.output.ident);
            if id < names.len() {
                if provided[id].is_none() {
                    provided.set(id, Some(recipe.output.quantity));
                }
                let mut list: Vec<(usize, i64)> = Vec::new();
                let mut j: usize = 0;
                while j < recipe.input.len()
                    invariant
                        j <= recipe.input.len(),
                        known == texts(names@),
                        list@.len() == j,
                        forall|m: int|
                            0 <= m < j ==> #[trigger] list@[m] == (
                                place(known, recipe@.input[m].ident) as usize,
                                recipe@.input[m].quantity,
                            ),
                    decreases recipe.input.len() - j,
                {
                    assert(recipe@.input[j as int] == recipe.input@[j as int]@);
                    let c = &recipe.input[j];
                    list.push((find(&names, &c.ident), c.quantity));
                    j += 1;
                }
                proof {
                    assert(list@ =~= numbered(known, recipe@.input));
                }
                inputs.set(id, list);
            }
            n += 1;
        }
        let reactions = Reactions { names, provided, inputs };
        proof {
            assert(reactions@.provided =~= plant(all).provided);
            assert(reactions@.inputs =~= plant(all).inputs);
        }
        reactions
    }

    /// The number that stands for a chemical; the number of chemicals if the
    /// name is not one of theirs.
    pub fn id(&self, name: &str) -> (id: usize)
        ensures
            id == place(self@.names, name@),
    {
        find(&self.names, &string_of(&chars(name)))
    }

    /// The number of chemicals.
    pub fn len(&self) -> (n: usize)
        ensures
            n == self@.names.len(),
    {
        self.names.len()
    }

    /// The ore that `amount` units of FUEL take, starting without stock.
    pub fn cost(&self, amount: i64) -> (r: Option<i64>)
        ensures
            r == self@.cost(amount),
    {
        let mut stock: Vec<i64> = Vec::new();
        let mut i: usize = 0;
        while i < self.names.len()
            invariant
                i <= self.names.len(),
                stock@.len() == i,
                forall|j: int| 0 <= j < i ==> #[trigger] stock@[j] == 0,
            decreases self.names.len() - i,
        {
            stock.push(0);
            i += 1;
        }
        proof {
            assert(stock@ =~= Seq::new(self@.names.len(), |i: int| 0i64));
        }
        let depth: usize = self.names.len();
        let fuel = self.id("FUEL");
        ore_requirements(self, &mut stock, fuel, amount, depth)
    }
}

/// The ore that it takes to get `chemical_quantity` units of a chemical,
/// with the reactions at most `fuel` deep. The stock is used first, and what
/// the reactions give beyond the need is put in stock.
pub fn ore_requirements(
    recipes: &Reactions,
    stock: &mut Vec<i64>,
    chemical: usize,
    chemical_quantity: i64,
    fuel: usize,
) -> (r: Option<i64>)
    ensures
        (final(stock)@, r) == recipes@.ore(
            old(stock)@,
            chemical as int,
            chemical_quantity,
            fuel as nat,
        ),
{
    let ore = recipes.id("ORE");
    ore_needed(recipes, stock, chemical, chemical_quantity, ore, fuel)
}

/// The ore that it takes to get `chemical_quantity` units of a chemical,
/// where `ore` is the number that stands for ORE.
fn ore_needed(
    recipes: &Reactions,
    stock: &mut Vec<i64>,
    chemical: usize,
    chemical_quantity: i64,
    ore: usize,
    fuel: usize,
) -> (r: Option<i64>)
    requires
        ore == place(recipes@.names, "ORE"@),
    ensures
        (final(stock)@, r) == recipes@.ore(
            old(stock)@,
            chemical as int,
            chemical_quantity,
            fuel as nat,
        ),
    decreases fuel,
{
    if fuel == 0 || chemical >= recipes.provided.len() || chemical >= stock.len() || chemical
        >= recipes.inputs.len() {
        return None;
    }
    let provided: i64 = match recipes.provided[chemical] {
        Some(provided) => provided,
        None => {
            return None;
        },
    };
    if provided <= 0 {
        return None;
    }
    let available: i64 = stock[chemical];
    let short: i128 = chemical_quantity as i128 - available as i128;
    let needed: i128 = if short > 0 {
        short
    } else {
        0
    };
    if needed > 0x7fff_ffff_ffff_ffff {
        return None;
    }
    let times: i128 = needed / (provided as i128) + if needed % (provided as i128) > 0 {
        1
    } else {
        0
    };
    assert(0 <= times <= needed + 1 && 0 <= provided * times <= 0x8000_0000_0000_0000
        * 0x8000_0000_0000_0000) by (nonlinear_arith)
        requires
            0 < provided <= 0x7fff_ffff_ffff_ffff,
            0 <= needed <= 0x7fff_ffff_ffff_ffff,
            times == (needed as int) / (provided as int) + if (needed as int) % (provided as int)
                > 0 {
                1int
            } else {
                0int
            },
    ;
    let made: i128 = (provided as i128) * times;
    if made > 0x7fff_ffff_ffff_ffff {
        return None;
    }
    let sum: i128 = available as i128 + made;
    if sum > 0x7fff_ffff_ffff_ffff || sum < -0x8000_0000_0000_0000 {
        return None;
    }
    let left: i128 = sum - chemical_quantity as i128;
    if left > 0x7fff_ffff_ffff_ffff || left < -0x8000_0000_0000_0000 {
        return None;
    }
    assert(times <= 0x7fff_ffff_ffff_ffff) by (nonlinear_arith)
        requires
            0 < provided,
            0 <= times,
            provided * times <= 0x7fff_ffff_ffff_ffff,
    ;
    stock.set(chemical, left as i64);
    let ghost start = stock@;
    let times: i64 = times as i64;
    let list = &recipes.inputs[chemical];
    assert(recipes@.inputs[chemical as int] == list@);
    let mut total_ore: i64 = 0;
    let mut n: usize = 0;
    while n < list.len()
        invariant
            n <= list.len(),
            fuel > 0,
            ore == place(recipes@.names, "ORE"@),
            recipes@.ore(old(stock)@, chemical as int, chemical_quantity, fuel as nat)
                == recipes@.ore_for(start, list@, list@.len(), times, (fuel - 1) as nat),
            (stock@, Some(total_ore)) == recipes@.ore_for(
                start,
                list@,
                n as nat,
                times,
                (fuel - 1) as nat,
            ),
        decreases list.len() - n,
    {
        let (id, quantity) = list[n];
        let here = match quantity.checked_mul(times) {
            None => None,
            Some(amount) => {
                if id == ore {
                    Some(amount)
                } else {
                    ore_needed(recipes, stock, id, amount, ore, fuel - 1)
                }
            },
        };
        let added = match here {
            Some(here) => total_ore.checked_add(here),
            None => None,
        };
        match added {
            Some(added) => {
                total_ore = added;
            },
            None => {
                proof {
                    assert(recipes@.ore_for(
                        start,
                        list@,
                        (n + 1) as nat,
                        times,
                        (fuel - 1) as nat,
                    ) == (stock@, None::<i64>));
                    lemma_ore_for_fails(
                        recipes@,
                        start,
                        list@,
                        (n + 1) as nat,
                        list@.len(),
                        times,
                        (fuel - 1) as nat,
                    );
                }
                return None;
            },
        }
        n += 1;
    }
    Some(total_ore)
}

/// The ore that one unit of FUEL takes.
pub fn part_one(recipes: &[Recipe]) -> (r: Option<i64>)
    ensures
        r == plant(formulas(recipes@)).cost(1),
{
    Reactions::new(recipes).cost(1)
}

/// What [`part_two`] returns: the amount that halving the range from 0 to one
/// more than the ore at hand ends at, provided that the lower end of the range
/// is affordable and the upper end is not. By [`lemma_search_brackets`] that is
/// an affordable amount of FUEL whose successor is not affordable.
pub open spec fn fuel_for_ore(plant: Plant) -> Option<i64> {
    if plant.affordable(0) && !plant.affordable((ORE_AT_HAND + 1) as i64) {
        Some(plant.search(0, (ORE_AT_HAND + 1) as i64))
    } else {
        None
    }
}

/// Whether the ore at hand suffices for an amount of FUEL.
fn is_affordable(reactions: &Reactions, amount: i64) -> (ok: bool)
    ensures
        ok == reactions@.affordable(amount),
{
    match reactions.cost(amount) {
        Some(ore) => ore <= ORE_AT_HAND,
        None => false,
    }
}

/// The most FUEL that the ore at hand gives.
pub fn part_two(recipes: &[Recipe]) -> (r: Option<i64>)
    ensures
        r == fuel_for_ore(plant(formulas(recipes@))),
{
    let reactions = Reactions::new(recipes);
    if !is_affordable(&reactions, 0) || is_affordable(&reactions, ORE_AT_HAND + 1) {
        return None;
    }
    let mut low: i64 = 0;
    let mut high: i64 = ORE_AT_HAND + 1;
    while high - low > 1
        invariant
            0 <= low < high <= ORE_AT_HAND + 1,
            reactions@.search(low, high) == reactions@.search(0, (ORE_AT_HAND + 1) as i64),
        decreases high - low,
    {
        let middle: i64 = low + (high - low) / 2;
        if is_affordable(&reactions, middle) {
            low = middle;
        } else {
            high = middle;
        }
    }
    Some(low)
}

} // verus!
