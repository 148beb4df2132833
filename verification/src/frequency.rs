use vstd::prelude::*;
use crate::text::chars_of;
use crate::tree::{total_weight, Tree};

verus! {

/// How often the symbol occurs in the text.
pub open spec fn occurrences(text: Seq<char>, symbol: char) -> nat
    decreases text.len(),
{
    if text.len() == 0 {
        0
    } else {
        occurrences(text.drop_last(), symbol) + if text.last() == symbol {
            1nat
        } else {
            0nat
        }
    }
}

/// The distinct symbols of the text, each at the place of its first occurrence.
pub open spec fn first_occurrences(text: Seq<char>) -> Seq<char>
    decreases text.len(),
{
    if text.len() == 0 {
        Seq::empty()
    } else {
        let prior = first_occurrences(text.drop_last());
        if prior.contains(text.last()) {
            prior
        } else {
            prior.push(text.last())
        }
    }
}

/// The frequency table of a text: its distinct symbols in the order of their
/// first occurrence, each with the number of its occurrences.
pub open spec fn frequencies(text: Seq<char>) -> Seq<(char, nat)> {
    first_occurrences(text).map_values(|c: char| (c, occurrences(text, c)))
}

/// The leaf that stands for one line of a frequency table.
pub open spec fn leaf_of(entry: (char, nat)) -> Tree {
    Tree::Leaf { symbol: entry.0, weight: entry.1 }
}

/// The leaves that a frequency table starts the construction of the tree with.
pub open spec fn leaves_of(table: Seq<(char, nat)>) -> Seq<Tree> {
    table.map_values(|entry: (char, nat)| leaf_of(entry))
}

/// A symbol occurs at most as often as the text is long, and not at all
/// exactly when the text does not hold it.
pub proof fn lemma_occurrences(text: Seq<char>, symbol: char)
    ensures
        occurrences(text, symbol) <= text.len(),
        occurrences(text, symbol) == 0 <==> !text.contains(symbol),
    decreases text.len(),
{
    if text.len() > 0 {
        let prior = text.drop_last();
        lemma_occurrences(prior, symbol);
        if text.contains(symbol) && text.last() != symbol {
            let i = choose|i: int| 0 <= i < text.len() && text[i] == symbol;
            assert(prior[i] == symbol);
        }
    }
}

/// The first occurrences hold each symbol of the text, and each once.
pub proof fn lemma_first_occurrences(text: Seq<char>)
    ensures
        first_occurrences(text).no_duplicates(),
        forall|c: char| first_occurrences(text).contains(c) <==> text.contains(c),
    decreases text.len(),
{
    if text.len() > 0 {
        let prior_text = text.drop_last();
        let prior = first_occurrences(prior_text);
        let last = text.last();
        lemma_first_occurrences(prior_text);
        assert forall|c: char| first_occurrences(text).contains(c) <==> text.contains(c) by {
            if text.contains(c) {
                let i = choose|i: int| 0 <= i < text.len() && text[i] == c;
                if i < prior_text.len() {
                    assert(prior_text[i] == c);
                    assert(prior_text.contains(c));
                    let k = choose|k: int| 0 <= k < prior.len() && prior[k] == c;
                    assert(first_occurrences(text)[k] == c);
                } else if !prior.contains(last) {
                    assert(first_occurrences(text)[prior.len() as int] == c);
                }
            }
            if first_occurrences(text).contains(c) {
                let k = choose|k: int| 0 <= k < first_occurrences(text).len() && first_occurrences(text)[k] == c;
                if k < prior.len() {
                    assert(prior_text.contains(c));
                }
            }
        }
    }
}

/// The frequency table of a text with one more symbol at its end: the count
/// of the symbol goes up by one where the table has the symbol, and a line
/// with the count one is added at the end where it has not.
pub proof fn lemma_frequencies_step(text: Seq<char>)
    requires
        text.len() > 0,
    ensures
        ({
            let prior = frequencies(text.drop_last());
            let symbols = first_occurrences(text.drop_last());
            let last = text.last();
            &&& symbols.contains(last) ==> {
                let k = symbols.index_of(last);
                &&& 0 <= k < prior.len()
                &&& prior[k].0 == last
                &&& frequencies(text) == prior.update(k, (last, prior[k].1 + 1))
            }
            &&& !symbols.contains(last) ==> frequencies(text) == prior.push((last, 1nat))
        }),
{
    let prior_text = text.drop_last();
    let symbols = first_occurrences(prior_text);
    let last = text.last();
    lemma_first_occurrences(prior_text);
    if !symbols.contains(last) {
        lemma_occurrences(prior_text, last);
    }
}

/// Replacing a tree of a forest changes the total weight by the difference
/// of the two weights.
pub proof fn lemma_total_weight_update(forest: Seq<Tree>, k: int, tree: Tree)
    requires
        0 <= k < forest.len(),
    ensures
        total_weight(forest.update(k, tree)) + forest[k].weight() == total_weight(forest) + tree.weight(),
    decreases forest.len(),
{
    let last = forest.len() - 1;
    if k == last {
        assert(forest.update(k, tree).drop_last() =~= forest.drop_last());
    } else {
        lemma_total_weight_update(forest.drop_last(), k, tree);
        assert(forest.update(k, tree).drop_last() =~= forest.drop_last().update(k, tree));
    }
}

/// The counts of a frequency table add up to the length of the text.
pub proof fn lemma_frequencies_total(text: Seq<char>)
    ensures
        total_weight(leaves_of(frequencies(text))) == text.len(),
    decreases text.len(),
{
    if text.len() > 0 {
        let prior = frequencies(text.drop_last());
        let symbols = first_occurrences(text.drop_last());
        let last = text.last();
        lemma_frequencies_total(text.drop_last());
        lemma_frequencies_step(text);
        if symbols.contains(last) {
            let k = symbols.index_of(last);
            let bumped = leaf_of((last, prior[k].1 + 1));
            assert(leaves_of(frequencies(text)) =~= leaves_of(prior).update(k, bumped));
            lemma_total_weight_update(leaves_of(prior), k, bumped);
        } else {
            let added = leaf_of((last, 1nat));
            assert(leaves_of(frequencies(text)) =~= leaves_of(prior).push(added));
            assert(leaves_of(prior).push(added).drop_last() =~= leaves_of(prior));
        }
    }
}

/// One line of a frequency table: a symbol and the number of its occurrences.
#[derive(Clone, Copy, Debug)]
pub struct Frequency {
    pub symbol: char,
    pub count: u64,
}

/// A line of a frequency table as a mathematical value.
pub open spec fn line_of(entry: Frequency) -> (char, nat) {
    (entry.symbol, entry.count as nat)
}

impl View for Frequency {
    type V = (char, nat);

    open spec fn view(&self) -> (char, nat) {
        line_of(*self)
    }
}

/// The frequency table of a text.
pub struct SymbolFrequencies {
    pub entries: Vec<Frequency>,
}

impl View for SymbolFrequencies {
    type V = Seq<(char, nat)>;

    open spec fn view(&self) -> Seq<(char, nat)> {
        self.entries@.map_values(|entry: Frequency| line_of(entry))
    }
}

impl Frequency {
    /// The line that gives `symbol` the count `count`.
    pub fn new(symbol: char, count: u64) -> (entry: Frequency)
        ensures
            entry.symbol == symbol,
            entry.count == count,
    {
        Frequency { symbol, count }
    }
}

impl SymbolFrequencies {
    /// The place of the first line of the table that has the symbol, if one has it.
    pub fn position(&self, symbol: char) -> (place: Option<usize>)
        ensures
            match place {
                Some(k) => {
                    &&& k < self@.len()
                    &&& self@[k as int].0 == symbol
                    &&& forall|j: int| 0 <= j < k ==> (#[trigger] self@[j]).0 != symbol
                },
                None => forall|j: int| 0 <= j < self@.len() ==> (#[trigger] self@[j]).0 != symbol,
            },
    {
        let mut i: usize = 0;
        while i < self.entries.len()
            invariant
                i <= self.entries.len(),
                forall|j: int| 0 <= j < i ==> (#[trigger] self@[j]).0 != symbol,
            decreases self.entries.len() - i,
        {
            if self.entries[i].symbol == symbol {
                return Some(i);
            }
            i += 1;
        }
        None
    }
}

/// Counts the occurrences of each symbol of the text. The table lists the
/// symbols in the order in which the text first shows them; the empty text
/// gives the empty table.
pub fn build_frequencies(text: &str) -> (table: SymbolFrequencies)
    ensures
        table@ == frequencies(text@),
{
    let symbols = chars_of(text);
    count_symbols(&symbols)
}

/// Counts the occurrences of each of the given symbols, as `build_frequencies`
/// does for a text.
pub fn count_symbols(symbols: &Vec<char>) -> (table: SymbolFrequencies)
    ensures
        table@ == frequencies(symbols@),
{
    let mut table = SymbolFrequencies { entries: Vec::new() };
    let mut i: usize = 0;
    while i < symbols.len()
        invariant
            i <= symbols.len(),
            table@ == frequencies(symbols@.take(i as int)),
        decreases symbols.len() - i,
    {
        let symbol = symbols[i];
        let ghost seen = symbols@.take(i as int);
        let ghost now = symbols@.take(i + 1);
        proof {
            assert(now.drop_last() =~= seen);
            lemma_frequencies_step(now);
            lemma_first_occurrences(seen);
            lemma_occurrences(seen, symbol);
        }
        match table.position(symbol) {
            Some(k) => {
                let entry = table.entries[k];
                table.entries.set(k, Frequency { symbol: entry.symbol, count: entry.count + 1 });
            },
            None => {
                assert(!first_occurrences(seen).contains(symbol));
                table.entries.push(Frequency::new(symbol, 1));
            },
        }
        i += 1;
    }
    assert(symbols@.take(i as int) =~= symbols@);
    table
}

} // verus!
