use vstd::prelude::*;
use crate::tree::{Compressor, Node, Tree};

verus! {

/// One line of a codeword table as a mathematical value: a symbol and the
/// bits that stand for it.
pub struct Codeword {
    pub symbol: char,
    pub bits: Seq<bool>,
}

/// One line of a codeword table: a symbol and the bits that stand for it.
pub struct CodeEntry {
    pub symbol: char,
    pub code: Vec<bool>,
}

impl View for CodeEntry {
    type V = Codeword;

    open spec fn view(&self) -> Codeword {
        Codeword { symbol: self.symbol, bits: self.code@ }
    }
}

/// A codeword table: its lines in the order in which the tree walk found
/// the symbols.
pub struct CodeTable {
    pub entries: Vec<CodeEntry>,
}

impl View for CodeTable {
    type V = Seq<Codeword>;

    open spec fn view(&self) -> Seq<Codeword> {
        self.entries@.map_values(|e: CodeEntry| e@)
    }
}

/// The codeword that a leaf gets when the walk reaches it by `path`: the
/// path itself, and the single bit 0 where the path is empty, so that no
/// symbol ever has an empty codeword.
pub open spec fn leaf_bits(path: Seq<bool>) -> Seq<bool> {
    if path.len() == 0 {
        seq![false]
    } else {
        path
    }
}

/// The lines that a pre-order walk of `tree` writes when it has come to the
/// tree by `path`: left is 0, right is 1.
pub open spec fn codes_under(tree: Tree, path: Seq<bool>) -> Seq<Codeword>
    decreases tree,
{
    match tree {
        Tree::Leaf { symbol, .. } => seq![Codeword { symbol, bits: leaf_bits(path) }],
        Tree::Internal { left, right, .. } => codes_under(*left, path.push(false)) + codes_under(
            *right,
            path.push(true),
        ),
    }
}

/// The codeword table of a whole tree.
pub open spec fn code_table(tree: Tree) -> Seq<Codeword> {
    codes_under(tree, Seq::empty())
}

/// No codeword of the table is a prefix of the codeword of another line.
pub open spec fn prefix_free(table: Seq<Codeword>) -> bool {
    forall|i: int, j: int|
        0 <= i < table.len() && 0 <= j < table.len() && i != j ==> !(#[trigger] table[i]).bits.is_prefix_of(
            (#[trigger] table[j]).bits,
        )
}

/// Every codeword of the table has at least one bit.
pub open spec fn no_empty_code(table: Seq<Codeword>) -> bool {
    forall|i: int| 0 <= i < table.len() ==> (#[trigger] table[i]).bits.len() > 0
}

/// The table has a line for the symbol.
pub open spec fn has_symbol(table: Seq<Codeword>, symbol: char) -> bool {
    exists|i: int| 0 <= i < table.len() && (#[trigger] table[i]).symbol == symbol
}

/// Every codeword under a tree starts with the path that led to the tree, and
/// none is empty.
pub proof fn lemma_codes_extend_path(tree: Tree, path: Seq<bool>)
    ensures
        no_empty_code(codes_under(tree, path)),
        forall|i: int|
            0 <= i < codes_under(tree, path).len() ==> path.is_prefix_of(
                (#[trigger] codes_under(tree, path)[i]).bits,
            ),
    decreases tree,
{
    match tree {
        Tree::Leaf { .. } => {},
        Tree::Internal { left, right, .. } => {
            lemma_codes_extend_path(*left, path.push(false));
            lemma_codes_extend_path(*right, path.push(true));
        },
    }
}

/// The symbols of the lines under a tree are the symbols at its leaves.
pub proof fn lemma_codes_cover_symbols(tree: Tree, path: Seq<bool>)
    ensures
        forall|c: char| tree.symbols().contains(c) <==> has_symbol(codes_under(tree, path), c),
    decreases tree,
{
    let codes = codes_under(tree, path);
    match tree {
        Tree::Leaf { symbol, .. } => {
            assert(codes[0].symbol == symbol);
        },
        Tree::Internal { left, right, .. } => {
            let l = codes_under(*left, path.push(false));
            let r = codes_under(*right, path.push(true));
            lemma_codes_cover_symbols(*left, path.push(false));
            lemma_codes_cover_symbols(*right, path.push(true));
            assert forall|c: char| tree.symbols().contains(c) <==> has_symbol(codes, c) by {
                if left.symbols().contains(c) {
                    let i = choose|i: int| 0 <= i < l.len() && (#[trigger] l[i]).symbol == c;
                    assert(codes[i] == l[i]);
                }
                if right.symbols().contains(c) {
                    let i = choose|i: int| 0 <= i < r.len() && (#[trigger] r[i]).symbol == c;
                    assert(codes[l.len() + i] == r[i]);
                }
            }
        },
    }
}

/// The codewords that a walk writes are prefix-free, whatever the tree and
/// the path.
pub proof fn lemma_codes_prefix_free(tree: Tree, path: Seq<bool>)
    ensures
        prefix_free(codes_under(tree, path)),
    decreases tree,
{
    let codes = codes_under(tree, path);
    match tree {
        Tree::Leaf { .. } => {},
        Tree::Internal { left, right, .. } => {
            let l = codes_under(*left, path.push(false));
            lemma_codes_prefix_free(*left, path.push(false));
            lemma_codes_prefix_free(*right, path.push(true));
            lemma_codes_extend_path(*left, path.push(false));
            lemma_codes_extend_path(*right, path.push(true));
            let n = path.len() as int;
            assert forall|i: int, j: int|
                0 <= i < codes.len() && 0 <= j < codes.len() && i != j implies !(#[trigger] codes[i]).bits.is_prefix_of(
                (#[trigger] codes[j]).bits,
            ) by {
                let a = codes[i].bits;
                if i < l.len() <= j {
                    assert(a[n] == path.push(false)[n]);
                }
                if j < l.len() <= i {
                    assert(a[n] == path.push(true)[n]);
                }
            }
        },
    }
}

/// The bits of the first line of the table that has the symbol.
pub open spec fn code_of(table: Seq<Codeword>, symbol: char) -> Option<Seq<bool>>
    decreases table.len(),
{
    if table.len() == 0 {
        None
    } else if table[0].symbol == symbol {
        Some(table[0].bits)
    } else {
        code_of(table.drop_first(), symbol)
    }
}

/// The symbol of the first line of the table that has exactly these bits.
pub open spec fn symbol_of(table: Seq<Codeword>, bits: Seq<bool>) -> Option<char>
    decreases table.len(),
{
    if table.len() == 0 {
        None
    } else if table[0].bits == bits {
        Some(table[0].symbol)
    } else {
        symbol_of(table.drop_first(), bits)
    }
}

/// `code_of` finds a line exactly when the table has one for the symbol.
pub proof fn lemma_code_of_known(table: Seq<Codeword>, symbol: char)
    ensures
        code_of(table, symbol) is Some <==> has_symbol(table, symbol),
        code_of(table, symbol) matches Some(bits) ==> exists|i: int|
            0 <= i < table.len() && (#[trigger] table[i]).symbol == symbol && table[i].bits == bits,
    decreases table.len(),
{
    if table.len() > 0 {
        let rest = table.drop_first();
        lemma_code_of_known(rest, symbol);
        if table[0].symbol != symbol && has_symbol(table, symbol) {
            let i = choose|i: int| 0 <= i < table.len() && (#[trigger] table[i]).symbol == symbol;
            assert(rest[i - 1] == table[i]);
        }
    }
}

/// In a prefix-free table the bits of a line lead back to its symbol.
pub proof fn lemma_symbol_of_line(table: Seq<Codeword>, i: int)
    requires
        prefix_free(table),
        0 <= i < table.len(),
    ensures
        symbol_of(table, table[i].bits) == Some(table[i].symbol),
    decreases table.len(),
{
    if i > 0 {
        lemma_symbol_of_line(table.drop_first(), i - 1);
    }
}

/// Bits that no line of the table has lead to no symbol.
pub proof fn lemma_symbol_of_none(table: Seq<Codeword>, bits: Seq<bool>)
    requires
        forall|i: int| 0 <= i < table.len() ==> (#[trigger] table[i]).bits != bits,
    ensures
        symbol_of(table, bits) is None,
    decreases table.len(),
{
    if table.len() > 0 {
        lemma_symbol_of_none(table.drop_first(), bits);
    }
}

/// The table with a line put into it: the line stands in place of the first
/// line that has its symbol, and at the end where no line has it.
pub open spec fn put(table: Seq<Codeword>, line: Codeword) -> Seq<Codeword>
    decreases table.len(),
{
    if table.len() == 0 {
        seq![line]
    } else if table[0].symbol == line.symbol {
        seq![line] + table.drop_first()
    } else {
        seq![table[0]] + put(table.drop_first(), line)
    }
}

/// The table with the lines put into it one after the other.
pub open spec fn put_all(table: Seq<Codeword>, lines: Seq<Codeword>) -> Seq<Codeword>
    decreases lines.len(),
{
    if lines.len() == 0 {
        table
    } else {
        put_all(put(table, lines[0]), lines.drop_first())
    }
}

/// No two lines of the table have the same symbol.
pub open spec fn distinct_symbols(table: Seq<Codeword>) -> bool {
    forall|i: int, j: int|
        0 <= i < table.len() && 0 <= j < table.len() && i != j ==> (#[trigger] table[i]).symbol
            != (#[trigger] table[j]).symbol
}

/// Each line of the table is a line of `all`.
pub open spec fn lines_within(table: Seq<Codeword>, all: Seq<Codeword>) -> bool {
    forall|i: int| 0 <= i < table.len() ==> all.contains(#[trigger] table[i])
}

/// The lines under a tree carry the letters of the tree, in their order.
pub proof fn lemma_codes_letters(tree: Tree, path: Seq<bool>)
    ensures
        codes_under(tree, path).len() == tree.letters().len(),
        forall|i: int|
            0 <= i < tree.letters().len() ==> (#[trigger] codes_under(tree, path)[i]).symbol
                == tree.letters()[i],
    decreases tree,
{
    match tree {
        Tree::Leaf { .. } => {},
        Tree::Internal { left, right, .. } => {
            lemma_codes_letters(*left, path.push(false));
            lemma_codes_letters(*right, path.push(true));
        },
    }
}

/// A line that is put where a line has its symbol takes the place of the
/// first such line.
pub proof fn lemma_put_found(table: Seq<Codeword>, line: Codeword, place: int)
    requires
        0 <= place < table.len(),
        table[place].symbol == line.symbol,
        forall|j: int| 0 <= j < place ==> (#[trigger] table[j]).symbol != line.symbol,
    ensures
        put(table, line) == table.update(place, line),
    decreases table.len(),
{
    if place == 0 {
        assert(put(table, line) =~= table.update(place, line));
    } else {
        let rest = table.drop_first();
        assert(rest[place - 1] == table[place]);
        assert forall|j: int| 0 <= j < place - 1 implies (#[trigger] rest[j]).symbol != line.symbol by {
            assert(rest[j] == table[j + 1]);
        }
        lemma_put_found(rest, line, place - 1);
        assert(seq![table[0]] + rest.update(place - 1, line) =~= table.update(place, line));
    }
}

/// A line that is put where no line has its symbol goes to the end.
pub proof fn lemma_put_absent(table: Seq<Codeword>, line: Codeword)
    requires
        !has_symbol(table, line.symbol),
    ensures
        put(table, line) == table.push(line),
    decreases table.len(),
{
    if table.len() == 0 {
        assert(put(table, line) =~= table.push(line));
    } else {
        let rest = table.drop_first();
        assert(table[0].symbol != line.symbol);
        assert forall|j: int| 0 <= j < rest.len() implies (#[trigger] rest[j]).symbol != line.symbol by {
            assert(rest[j] == table[j + 1]);
        }
        lemma_put_absent(rest, line);
        assert(seq![table[0]] + rest.push(line) =~= table.push(line));
    }
}

/// The place of the first line of the table that has the symbol.
pub proof fn lemma_first_line(table: Seq<Codeword>, symbol: char) -> (place: int)
    requires
        has_symbol(table, symbol),
    ensures
        0 <= place < table.len(),
        table[place].symbol == symbol,
        forall|j: int| 0 <= j < place ==> (#[trigger] table[j]).symbol != symbol,
    decreases table.len(),
{
    if table[0].symbol == symbol {
        0
    } else {
        let rest = table.drop_first();
        let i = choose|i: int| 0 <= i < table.len() && (#[trigger] table[i]).symbol == symbol;
        assert(rest[i - 1] == table[i]);
        let place = lemma_first_line(rest, symbol);
        assert(rest[place] == table[place + 1]);
        assert forall|j: int| 0 <= j < place + 1 implies (#[trigger] table[j]).symbol != symbol by {
            if j > 0 {
                assert(rest[j - 1] == table[j]);
            }
        }
        place + 1
    }
}

/// After a line is put, its symbol has its bits, and every other symbol has
/// what it had.
pub proof fn lemma_put_code(table: Seq<Codeword>, line: Codeword, symbol: char)
    ensures
        code_of(put(table, line), symbol) == if symbol == line.symbol {
            Some(line.bits)
        } else {
            code_of(table, symbol)
        },
    decreases table.len(),
{
    let after = put(table, line);
    if table.len() == 0 {
        assert(after[0] == line);
        assert(after.drop_first() =~= table);
    } else if table[0].symbol == line.symbol {
        assert(after[0] == line);
        assert(after.drop_first() =~= table.drop_first());
    } else {
        lemma_put_code(table.drop_first(), line, symbol);
        assert(after[0] == table[0]);
        assert(after.drop_first() =~= put(table.drop_first(), line));
    }
}

/// Putting a line keeps the symbols of a table distinct and its lines
/// within `all`, where the line is one of `all`; the table then has the
/// symbols it had and that of the line.
pub proof fn lemma_put_keeps(table: Seq<Codeword>, line: Codeword, all: Seq<Codeword>)
    requires
        distinct_symbols(table),
        lines_within(table, all),
        all.contains(line),
    ensures
        distinct_symbols(put(table, line)),
        lines_within(put(table, line), all),
        forall|c: char|
            #![trigger has_symbol(put(table, line), c)]
            has_symbol(put(table, line), c) <==> (c == line.symbol || has_symbol(table, c)),
{
    let after = put(table, line);
    if has_symbol(table, line.symbol) {
        let place = lemma_first_line(table, line.symbol);
        lemma_put_found(table, line, place);
        assert forall|c: char| has_symbol(after, c) <==> (c == line.symbol || has_symbol(table, c)) by {
            if has_symbol(after, c) {
                let i = choose|i: int| 0 <= i < after.len() && (#[trigger] after[i]).symbol == c;
                if i != place {
                    assert(table[i].symbol == c);
                }
            }
            if c == line.symbol {
                assert(after[place].symbol == c);
            }
            if has_symbol(table, c) {
                let i = choose|i: int| 0 <= i < table.len() && (#[trigger] table[i]).symbol == c;
                assert(after[i].symbol == c);
            }
        }
        assert forall|i: int, j: int|
            0 <= i < after.len() && 0 <= j < after.len() && i != j implies (#[trigger] after[i]).symbol
            != (#[trigger] after[j]).symbol by {
            assert(after[i].symbol == table[i].symbol && after[j].symbol == table[j].symbol);
        }
        assert forall|i: int| 0 <= i < after.len() implies all.contains(#[trigger] after[i]) by {
            if i != place {
                assert(after[i] == table[i]);
            }
        }
    } else {
        lemma_put_absent(table, line);
        assert forall|c: char| has_symbol(after, c) <==> (c == line.symbol || has_symbol(table, c)) by {
            if has_symbol(after, c) {
                let i = choose|i: int| 0 <= i < after.len() && (#[trigger] after[i]).symbol == c;
                if i < table.len() {
                    assert(table[i].symbol == c);
                }
            }
            if c == line.symbol {
                assert(after[table.len() as int].symbol == c);
            }
            if has_symbol(table, c) {
                let i = choose|i: int| 0 <= i < table.len() && (#[trigger] table[i]).symbol == c;
                assert(after[i].symbol == c);
            }
        }
        assert forall|i: int, j: int|
            0 <= i < after.len() && 0 <= j < after.len() && i != j implies (#[trigger] after[i]).symbol
            != (#[trigger] after[j]).symbol by {
            if i < table.len() {
                assert(after[i] == table[i]);
            }
            if j < table.len() {
                assert(after[j] == table[j]);
            }
        }
        assert forall|i: int| 0 <= i < after.len() implies all.contains(#[trigger] after[i]) by {
            if i < table.len() {
                assert(after[i] == table[i]);
            }
        }
    }
}

/// Putting lines of `all` keeps the symbols of a table distinct and its
/// lines within `all`; the table then has the symbols it had and those of
/// the lines.
pub proof fn lemma_put_all_keeps(table: Seq<Codeword>, lines: Seq<Codeword>, all: Seq<Codeword>)
    requires
        distinct_symbols(table),
        lines_within(table, all),
        lines_within(lines, all),
    ensures
        distinct_symbols(put_all(table, lines)),
        lines_within(put_all(table, lines), all),
        forall|c: char|
            #![trigger has_symbol(put_all(table, lines), c)]
            has_symbol(put_all(table, lines), c) <==> (has_symbol(lines, c) || has_symbol(table, c)),
    decreases lines.len(),
{
    if lines.len() > 0 {
        let rest = lines.drop_first();
        assert(all.contains(lines[0]));
        lemma_put_keeps(table, lines[0], all);
        assert forall|i: int| 0 <= i < rest.len() implies all.contains(#[trigger] rest[i]) by {
            assert(rest[i] == lines[i + 1]);
        }
        let next = put(table, lines[0]);
        lemma_put_all_keeps(next, rest, all);
        assert(put_all(table, lines) == put_all(next, rest));
        assert forall|c: char|
            has_symbol(put_all(table, lines), c) <==> (has_symbol(lines, c) || has_symbol(table, c)) by {
            assert(has_symbol(put_all(next, rest), c) <==> (has_symbol(rest, c) || has_symbol(next, c)));
            assert(has_symbol(next, c) <==> (c == lines[0].symbol || has_symbol(table, c)));
            if has_symbol(lines, c) {
                let i = choose|i: int| 0 <= i < lines.len() && (#[trigger] lines[i]).symbol == c;
                if i > 0 {
                    assert(rest[i - 1] == lines[i]);
                }
            }
            if has_symbol(rest, c) {
                let i = choose|i: int| 0 <= i < rest.len() && (#[trigger] rest[i]).symbol == c;
                assert(lines[i + 1] == rest[i]);
            }
            if c == lines[0].symbol {
                assert(lines[0].symbol == c);
            }
        }
    }
}

/// Lines put one after the other can be put in two runs.
pub proof fn lemma_put_all_split(table: Seq<Codeword>, first: Seq<Codeword>, second: Seq<Codeword>)
    ensures
        put_all(table, first + second) == put_all(put_all(table, first), second),
    decreases first.len(),
{
    if first.len() == 0 {
        assert(first + second =~= second);
    } else {
        assert((first + second)[0] == first[0]);
        assert((first + second).drop_first() =~= first.drop_first() + second);
        lemma_put_all_split(put(table, first[0]), first.drop_first(), second);
    }
}

/// After lines are put, a symbol that none of them has has what it had;
/// and where the lines have distinct symbols, each of their symbols has the
/// bits of its line.
pub proof fn lemma_put_all_codes(table: Seq<Codeword>, lines: Seq<Codeword>)
    ensures
        forall|c: char| !has_symbol(lines, c) ==> code_of(put_all(table, lines), c) == code_of(table, c),
        distinct_symbols(lines) ==> forall|i: int|
            0 <= i < lines.len() ==> code_of(put_all(table, lines), (#[trigger] lines[i]).symbol) == Some(
                lines[i].bits,
            ),
    decreases lines.len(),
{
    if lines.len() > 0 {
        let rest = lines.drop_first();
        let next = put(table, lines[0]);
        lemma_put_all_codes(next, rest);
        assert forall|c: char| !has_symbol(lines, c) implies code_of(put_all(table, lines), c) == code_of(
            table,
            c,
        ) by {
            lemma_put_code(table, lines[0], c);
            assert(lines[0].symbol != c);
            if has_symbol(rest, c) {
                let i = choose|i: int| 0 <= i < rest.len() && (#[trigger] rest[i]).symbol == c;
                assert(lines[i + 1] == rest[i]);
            }
        }
        if distinct_symbols(lines) {
            assert forall|i: int, j: int|
                0 <= i < rest.len() && 0 <= j < rest.len() && i != j implies (#[trigger] rest[i]).symbol
                != (#[trigger] rest[j]).symbol by {
                assert(rest[i] == lines[i + 1] && rest[j] == lines[j + 1]);
            }
            assert forall|i: int| 0 <= i < lines.len() implies code_of(
                put_all(table, lines),
                (#[trigger] lines[i]).symbol,
            ) == Some(lines[i].bits) by {
                if i == 0 {
                    let c = lines[0].symbol;
                    if has_symbol(rest, c) {
                        let j = choose|j: int| 0 <= j < rest.len() && (#[trigger] rest[j]).symbol == c;
                        assert(lines[j + 1] == rest[j]);
                    }
                    lemma_put_code(table, lines[0], c);
                } else {
                    assert(rest[i - 1] == lines[i]);
                }
            }
        }
    }
}

/// Whether two bit sequences are the same.
pub fn same_bits(a: &Vec<bool>, b: &Vec<bool>) -> (same: bool)
    ensures
        same == (a@ == b@),
{
    if a.len() != b.len() {
        return false;
    }
    let mut i: usize = 0;
    while i < a.len()
        invariant
            a.len() == b.len(),
            i <= a.len(),
            a@.take(i as int) == b@.take(i as int),
        decreases a.len() - i,
    {
        if a[i] != b[i] {
            return false;
        }
        i += 1;
    }
    assert(a@.take(i as int) =~= a@ && b@.take(i as int) =~= b@);
    true
}

impl CodeTable {
    /// A table without lines.
    pub fn new() -> (table: CodeTable)
        ensures
            table@ == Seq::<Codeword>::empty(),
    {
        CodeTable { entries: Vec::new() }
    }

    /// Puts a line into the table: in place of the first line that has the
    /// symbol, and at the end where no line has it.
    pub fn put(&mut self, symbol: char, code: Vec<bool>)
        ensures
            final(self)@ == put(old(self)@, Codeword { symbol, bits: code@ }),
    {
        let ghost line = Codeword { symbol, bits: code@ };
        let mut i: usize = 0;
        while i < self.entries.len()
            invariant
                i <= self.entries.len(),
                *self == *old(self),
                line == (Codeword { symbol, bits: code@ }),
                forall|j: int| 0 <= j < i ==> (#[trigger] self@[j]).symbol != symbol,
            decreases self.entries.len() - i,
        {
            if self.entries[i].symbol == symbol {
                proof {
                    lemma_put_found(self@, line, i as int);
                }
                self.entries.set(i, CodeEntry { symbol, code });
                assert(self@ =~= old(self)@.update(i as int, line));
                return;
            }
            i += 1;
        }
        proof {
            lemma_put_absent(self@, line);
        }
        self.entries.push(CodeEntry { symbol, code });
        assert(self@ =~= old(self)@.push(line));
    }

    /// The codeword of a symbol: that of the first line that has the symbol.
    pub fn code_for(&self, symbol: char) -> (code: Option<&Vec<bool>>)
        ensures
            code matches Some(bits) ==> code_of(self@, symbol) == Some(bits@),
            code is None ==> code_of(self@, symbol) is None,
    {
        let mut i: usize = 0;
        assert(self@.skip(0) =~= self@);
        while i < self.entries.len()
            invariant
                i <= self.entries.len(),
                code_of(self@, symbol) == code_of(self@.skip(i as int), symbol),
            decreases self.entries.len() - i,
        {
            if self.entries[i].symbol == symbol {
                return Some(&self.entries[i].code);
            }
            assert(self@.skip(i as int).drop_first() =~= self@.skip(i + 1));
            i += 1;
        }
        None
    }

    /// The symbol of a codeword: that of the first line that has exactly
    /// these bits.
    pub fn symbol_for(&self, bits: &Vec<bool>) -> (symbol: Option<char>)
        ensures
            symbol == symbol_of(self@, bits@),
    {
        let mut i: usize = 0;
        assert(self@.skip(0) =~= self@);
        while i < self.entries.len()
            invariant
                i <= self.entries.len(),
                symbol_of(self@, bits@) == symbol_of(self@.skip(i as int), bits@),
            decreases self.entries.len() - i,
        {
            if same_bits(&self.entries[i].code, bits) {
                return Some(self.entries[i].symbol);
            }
            assert(self@.skip(i as int).drop_first() =~= self@.skip(i + 1));
            i += 1;
        }
        None
    }
}

impl Compressor {
    /// Walks the tree in pre-order and puts a line into the table for each
    /// leaf: the path to it, 0 for each step to the left and 1 for each step
    /// to the right. A leaf reached by the empty path gets the single bit 0.
    /// A line that the table has for the letter of a leaf is replaced; the
    /// lines of other symbols stay. Of two leaves with one letter, the later
    /// one decides.
    pub fn generate_codes(&self, node: &Node, code: Vec<bool>, codes: &mut CodeTable)
        ensures
            final(codes)@ == put_all(old(codes)@, codes_under(node@, code@)),
            forall|symbol: char|
                !node@.symbols().contains(symbol) ==> code_of(final(codes)@, symbol) == code_of(
                    old(codes)@,
                    symbol,
                ),
            node@.letters().no_duplicates() ==> forall|i: int|
                0 <= i < node@.letters().len() ==> code_of(final(codes)@, #[trigger] node@.letters()[i])
                    == Some(codes_under(node@, code@)[i].bits),
        decreases node,
    {
        let ghost path = code@;
        proof {
            let lines = codes_under(node@, code@);
            lemma_codes_cover_symbols(node@, code@);
            lemma_codes_letters(node@, code@);
            lemma_put_all_codes(old(codes)@, lines);
            if node@.letters().no_duplicates() {
                assert(distinct_symbols(lines));
            }
        }
        match node {
            Node::Leaf { letter, .. } => {
                let mut code = code;
                if code.len() == 0 {
                    code.push(false);
                    assert(code@ =~= seq![false]);
                }
                codes.put(*letter, code);
                proof {
                    let lines = codes_under(node@, path);
                    let rest = lines.drop_first();
                    assert(rest.len() == 0);
                    assert(put_all(put(old(codes)@, lines[0]), rest) == put(old(codes)@, lines[0]));
                    assert(put_all(old(codes)@, lines) == put(old(codes)@, lines[0]));
                }
            },
            Node::Internal { left, right, .. } => {
                let mut left_code = code.clone();
                left_code.push(false);
                let mut right_code = code;
                right_code.push(true);
                self.generate_codes(left, left_code, codes);
                self.generate_codes(right, right_code, codes);
                proof {
                    lemma_put_all_split(
                        old(codes)@,
                        codes_under(left@, left_code@),
                        codes_under(right@, right_code@),
                    );
                }
            },
        }
    }
}

} // verus!
