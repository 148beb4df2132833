use vstd::prelude::*;
use crate::codes::{
    code_of, code_table, distinct_symbols, has_symbol, lemma_code_of_known, lemma_codes_cover_symbols,
    lemma_codes_extend_path, lemma_codes_prefix_free, lemma_put_all_keeps, lemma_symbol_of_line,
    lemma_symbol_of_none, no_empty_code, prefix_free, put_all, symbol_of, CodeTable, Codeword,
};
use crate::frequency::{
    count_symbols, first_occurrences, frequencies, leaf_of, leaves_of, lemma_first_occurrences,
    lemma_frequencies_total, SymbolFrequencies,
};
use crate::text::{chars_of, text_of};
use crate::tree::{
    forest_of, forest_symbols, huffman_tree, lemma_huffman_tree_symbols, total_weight, Compressor,
    Node,
};

verus! {

/// A text could not be encoded.
#[derive(Debug)]
pub enum EncodeError {
    /// The table has no line for this symbol, the first such symbol of the text.
    UnknownSymbol(char),
}

/// A bit stream could not be decoded.
#[derive(Debug)]
pub enum DecodeError {
    /// The stream ended in the middle of a codeword.
    Misaligned,
}

/// The codeword table of a frequency table: the lines of its code tree, put
/// into an empty table in the order of the walk; the empty table where the
/// frequency table is empty.
pub open spec fn codes_of(table: Seq<(char, nat)>) -> Seq<Codeword> {
    if table.len() == 0 {
        Seq::empty()
    } else {
        put_all(Seq::empty(), code_table(huffman_tree(leaves_of(table))))
    }
}

/// Lines that are put into an empty table keep being prefix-free and
/// without an empty codeword, and the table has the symbols of the lines.
pub proof fn lemma_table_of_lines(lines: Seq<Codeword>)
    requires
        prefix_free(lines),
        no_empty_code(lines),
    ensures
        prefix_free(put_all(Seq::empty(), lines)),
        no_empty_code(put_all(Seq::empty(), lines)),
        distinct_symbols(put_all(Seq::empty(), lines)),
        forall|c: char| has_symbol(put_all(Seq::empty(), lines), c) <==> has_symbol(lines, c),
{
    let table = put_all(Seq::empty(), lines);
    assert forall|i: int| 0 <= i < lines.len() implies lines.contains(#[trigger] lines[i]) by {}
    lemma_put_all_keeps(Seq::empty(), lines, lines);
    assert forall|i: int| 0 <= i < table.len() implies (#[trigger] table[i]).bits.len() > 0 by {
        assert(lines.contains(table[i]));
    }
    assert forall|i: int, j: int| 0 <= i < table.len() && 0 <= j < table.len() && i != j implies !(
    #[trigger] table[i]).bits.is_prefix_of((#[trigger] table[j]).bits) by {
        assert(lines.contains(table[i]) && lines.contains(table[j]));
        let m = choose|m: int| 0 <= m < lines.len() && lines[m] == table[i];
        let n = choose|n: int| 0 <= n < lines.len() && lines[n] == table[j];
        assert(table[i].symbol != table[j].symbol);
        assert(!lines[m].bits.is_prefix_of(lines[n].bits));
    }
    assert forall|c: char| has_symbol(table, c) <==> has_symbol(lines, c) by {
        assert(!has_symbol(Seq::<Codeword>::empty(), c));
    }
}

/// The codeword table that a text is compressed with.
pub open spec fn text_codes(text: Seq<char>) -> Seq<Codeword> {
    codes_of(frequencies(text))
}

/// The first symbol of the text that the table has no line for.
pub open spec fn first_unknown(text: Seq<char>, table: Seq<Codeword>) -> Option<char>
    decreases text.len(),
{
    if text.len() == 0 {
        None
    } else if code_of(table, text[0]) is None {
        Some(text[0])
    } else {
        first_unknown(text.drop_first(), table)
    }
}

/// The bits that the table gives a symbol; none where it has no line for it.
pub open spec fn bits_of(table: Seq<Codeword>, symbol: char) -> Seq<bool> {
    match code_of(table, symbol) {
        Some(bits) => bits,
        None => Seq::empty(),
    }
}

/// The codewords of the symbols of the text, one after the other.
pub open spec fn concat_codes(text: Seq<char>, table: Seq<Codeword>) -> Seq<bool>
    decreases text.len(),
{
    if text.len() == 0 {
        Seq::empty()
    } else {
        bits_of(table, text[0]) + concat_codes(text.drop_first(), table)
    }
}

/// The bit stream of a text under a table: the codewords of its symbols in
/// order, if the table knows them all.
pub open spec fn encoded(text: Seq<char>, table: Seq<Codeword>) -> Option<Seq<bool>> {
    if first_unknown(text, table) is None {
        Some(concat_codes(text, table))
    } else {
        None
    }
}

/// `text` in front of what `rest` holds, if it holds a text.
pub open spec fn prepend(text: Seq<char>, rest: Option<Seq<char>>) -> Option<Seq<char>> {
    match rest {
        Some(tail) => Some(text + tail),
        None => None,
    }
}

/// What the decoder makes of `bits` when it already holds `pending`: each
/// bit joins the pending bits; as soon as these are a codeword of the table,
/// its symbol is written and the pending bits are dropped. Pending bits left
/// at the end of the stream make the decoding fail.
pub open spec fn decode_from(bits: Seq<bool>, table: Seq<Codeword>, pending: Seq<bool>) -> Option<Seq<char>>
    decreases bits.len(),
{
    if bits.len() == 0 {
        if pending.len() == 0 {
            Some(Seq::empty())
        } else {
            None
        }
    } else {
        let grown = pending.push(bits[0]);
        match symbol_of(table, grown) {
            Some(symbol) => prepend(seq![symbol], decode_from(bits.drop_first(), table, Seq::empty())),
            None => decode_from(bits.drop_first(), table, grown),
        }
    }
}

/// The text that a bit stream stands for under a table.
pub open spec fn decoded(bits: Seq<bool>, table: Seq<Codeword>) -> Option<Seq<char>> {
    decode_from(bits, table, Seq::empty())
}

/// The table knows every symbol of the text exactly when the text has no
/// first unknown symbol.
pub proof fn lemma_first_unknown(text: Seq<char>, table: Seq<Codeword>)
    ensures
        first_unknown(text, table) is None <==> forall|i: int|
            0 <= i < text.len() ==> has_symbol(table, #[trigger] text[i]),
        first_unknown(text, table) matches Some(symbol) ==> text.contains(symbol) && !has_symbol(table, symbol),
    decreases text.len(),
{
    if text.len() > 0 {
        let rest = text.drop_first();
        lemma_first_unknown(rest, table);
        lemma_code_of_known(table, text[0]);
        if code_of(table, text[0]) is Some && first_unknown(rest, table) is None {
            assert forall|i: int| 0 <= i < text.len() implies has_symbol(table, #[trigger] text[i]) by {
                if i > 0 {
                    assert(rest[i - 1] == text[i]);
                }
            }
        }
    }
}

/// Decoding the rest of a codeword and then `rest`, with the start of the
/// codeword pending, gives the symbol of the codeword and then the text of
/// `rest`.
pub proof fn lemma_decode_codeword(table: Seq<Codeword>, line: int, taken: int, rest: Seq<bool>)
    requires
        prefix_free(table),
        no_empty_code(table),
        0 <= line < table.len(),
        0 <= taken < table[line].bits.len(),
    ensures
        decode_from(table[line].bits.skip(taken) + rest, table, table[line].bits.take(taken)) == prepend(
            seq![table[line].symbol],
            decoded(rest, table),
        ),
    decreases table[line].bits.len() - taken,
{
    let word = table[line].bits;
    let bits = word.skip(taken) + rest;
    let pending = word.take(taken);
    let grown = pending.push(bits[0]);
    assert(grown =~= word.take(taken + 1));
    assert(bits.drop_first() =~= word.skip(taken + 1) + rest);
    if taken + 1 == word.len() {
        assert(grown =~= word);
        lemma_symbol_of_line(table, line);
    } else {
        lemma_symbol_of_none(table, grown);
        lemma_decode_codeword(table, line, taken + 1, rest);
    }
}

/// Under a prefix-free table without empty codewords, the bit stream of a
/// text decodes to the text.
pub proof fn lemma_decode_inverts_encode(text: Seq<char>, table: Seq<Codeword>)
    requires
        prefix_free(table),
        no_empty_code(table),
        first_unknown(text, table) is None,
    ensures
        decoded(concat_codes(text, table), table) == Some(text),
    decreases text.len(),
{
    if text.len() > 0 {
        let rest = text.drop_first();
        lemma_decode_inverts_encode(rest, table);
        lemma_code_of_known(table, text[0]);
        let word = code_of(table, text[0])->0;
        let line = choose|i: int|
            0 <= i < table.len() && (#[trigger] table[i]).symbol == text[0] && table[i].bits == word;
        lemma_decode_codeword(table, line, 0, concat_codes(rest, table));
        assert(word.skip(0) =~= word);
        assert(word.take(0) =~= Seq::<bool>::empty());
    }
}

/// The codeword table of a text is prefix-free, has no empty codeword, and
/// knows every symbol of the text.
pub proof fn lemma_text_codes(text: Seq<char>)
    ensures
        prefix_free(text_codes(text)),
        no_empty_code(text_codes(text)),
        first_unknown(text, text_codes(text)) is None,
{
    let table = text_codes(text);
    lemma_first_occurrences(text);
    if text.len() > 0 {
        assert(text.contains(text[0]));
        let firsts = first_occurrences(text);
        let forest = leaves_of(frequencies(text));
        let tree = huffman_tree(forest);
        lemma_codes_prefix_free(tree, Seq::empty());
        lemma_codes_extend_path(tree, Seq::empty());
        lemma_huffman_tree_symbols(forest);
        lemma_codes_cover_symbols(tree, Seq::empty());
        lemma_table_of_lines(code_table(tree));
        lemma_first_unknown(text, table);
        assert forall|i: int| 0 <= i < text.len() implies has_symbol(table, #[trigger] text[i]) by {
            assert(text.contains(text[i]));
            let k = choose|k: int| 0 <= k < firsts.len() && firsts[k] == text[i];
            assert(forest[k].symbols().contains(text[i]));
            assert(forest_symbols(forest).contains(text[i]));
        }
    }
}

/// Round trip: whatever the text, encoding it with its own codeword table
/// succeeds, and decoding the bit stream with that table gives the text back.
pub proof fn lemma_round_trip(text: Seq<char>)
    ensures
        encoded(text, text_codes(text)) is Some,
        decoded(encoded(text, text_codes(text))->0, text_codes(text)) == Some(text),
{
    lemma_text_codes(text);
    lemma_decode_inverts_encode(text, text_codes(text));
}

/// Prefix-free: no codeword that a frequency table gives is a prefix of the
/// codeword of another symbol.
pub proof fn lemma_prefix_free(table: Seq<(char, nat)>)
    ensures
        prefix_free(codes_of(table)),
{
    if table.len() > 0 {
        let tree = huffman_tree(leaves_of(table));
        lemma_codes_prefix_free(tree, Seq::empty());
        lemma_codes_extend_path(tree, Seq::empty());
        lemma_table_of_lines(code_table(tree));
    }
}

/// Determinism: frequency tables that hold the same lines in the same order
/// give the same codeword table, line by line and bit by bit.
pub proof fn lemma_same_frequencies_same_codes(first: Seq<(char, nat)>, second: Seq<(char, nat)>)
    requires
        first.len() == second.len(),
        forall|i: int| 0 <= i < first.len() ==> first[i] == second[i],
    ensures
        codes_of(first) == codes_of(second),
        codes_of(first).len() == codes_of(second).len(),
        forall|i: int|
            0 <= i < codes_of(first).len() ==> codes_of(first)[i].symbol == codes_of(second)[i].symbol
                && codes_of(first)[i].bits == codes_of(second)[i].bits,
{
    assert(first =~= second);
}

/// Builds the code tree of a frequency table, and none where the table is
/// empty. The counts have to add up to no more than a `u64` holds.
pub fn build_tree(table: &SymbolFrequencies) -> (root: Option<Node>)
    requires
        total_weight(leaves_of(table@)) <= u64::MAX,
    ensures
        table@.len() == 0 ==> root is None,
        table@.len() > 0 ==> root is Some && root->0@ == huffman_tree(leaves_of(table@)),
{
    if table.entries.len() == 0 {
        return None;
    }
    let mut nodes: Vec<Node> = Vec::new();
    let mut i: usize = 0;
    while i < table.entries.len()
        invariant
            i <= table.entries.len(),
            forest_of(nodes@) == leaves_of(table@).take(i as int),
        decreases table.entries.len() - i,
    {
        let entry = table.entries[i];
        let ghost before = forest_of(nodes@);
        nodes.push(Node::leaf(entry.symbol, entry.count));
        assert(forest_of(nodes@) =~= before.push(leaves_of(table@)[i as int]));
        i += 1;
    }
    assert(leaves_of(table@).take(i as int) =~= leaves_of(table@));
    let compressor = Compressor { text: String::new() };
    Some(compressor.merge_smallest_branches(nodes))
}

/// Builds the codeword table of a frequency table: the same table for the
/// same frequency table, and one without a codeword that is a prefix of
/// another. The counts have to add up to no more than a `u64` holds.
pub fn build_codes(table: &SymbolFrequencies) -> (codes: CodeTable)
    requires
        total_weight(leaves_of(table@)) <= u64::MAX,
    ensures
        codes@ == codes_of(table@),
        prefix_free(codes@),
{
    proof {
        lemma_prefix_free(table@);
    }
    let mut codes = CodeTable::new();
    match build_tree(table) {
        Some(root) => {
            let compressor = Compressor { text: String::new() };
            compressor.generate_codes(&root, Vec::new(), &mut codes);
        },
        None => {},
    }
    codes
}

/// Encodes the symbols as `encode` encodes a text.
pub fn encode_symbols(symbols: &Vec<char>, table: &CodeTable) -> (result: Result<Vec<bool>, EncodeError>)
    ensures
        match result {
            Ok(bits) => encoded(symbols@, table@) == Some(bits@),
            Err(EncodeError::UnknownSymbol(symbol)) => first_unknown(symbols@, table@) == Some(symbol),
        },
{
    let mut bits: Vec<bool> = Vec::new();
    let mut i: usize = 0;
    assert(symbols@.skip(0) =~= symbols@);
    while i < symbols.len()
        invariant
            i <= symbols.len(),
            first_unknown(symbols@, table@) == first_unknown(symbols@.skip(i as int), table@),
            concat_codes(symbols@, table@) == bits@ + concat_codes(symbols@.skip(i as int), table@),
        decreases symbols.len() - i,
    {
        let ghost before = bits@;
        let ghost rest = symbols@.skip(i as int);
        assert(rest.drop_first() =~= symbols@.skip(i + 1));
        match table.code_for(symbols[i]) {
            Some(code) => {
                bits.extend_from_slice(code.as_slice());
                assert(bits@ + concat_codes(symbols@.skip(i + 1), table@) =~= before + concat_codes(
                    rest,
                    table@,
                ));
            },
            None => {
                return Err(unknown_symbol(symbols[i]));
            },
        }
        i += 1;
    }
    Ok(bits)
}

/// The error that names `symbol` as unknown.
fn unknown_symbol(symbol: char) -> (error: EncodeError)
    ensures
        error == EncodeError::UnknownSymbol(symbol),
{
    EncodeError::UnknownSymbol(symbol)
}

/// Encodes a text: the codewords of its symbols, one after the other in the
/// order of the text. Fails at the first symbol that the table has no line
/// for.
pub fn encode(text: &str, table: &CodeTable) -> (result: Result<Vec<bool>, EncodeError>)
    ensures
        match result {
            Ok(bits) => encoded(text@, table@) == Some(bits@),
            Err(EncodeError::UnknownSymbol(symbol)) => first_unknown(text@, table@) == Some(symbol),
        },
{
    let symbols = chars_of(text);
    encode_symbols(&symbols, table)
}

impl Compressor {
    /// A compressor for the text.
    pub fn new(text: String) -> (compressor: Compressor)
        ensures
            compressor.text == text,
    {
        Compressor { text }
    }

    /// Compresses the text: counts its symbols, builds the code tree and the
    /// codeword table, and encodes the text with the table. Returns the bit
    /// stream and the table. The empty text gives no bits and the empty table.
    pub fn compress(&self) -> (out: (Vec<bool>, CodeTable))
        ensures
            out.1@ == text_codes(self.text@),
            prefix_free(out.1@),
            no_empty_code(out.1@),
            encoded(self.text@, out.1@) == Some(out.0@),
            decoded(out.0@, out.1@) == Some(self.text@),
    {
        let symbols = chars_of(self.text.as_str());
        let table = count_symbols(&symbols);
        proof {
            lemma_frequencies_total(symbols@);
            lemma_text_codes(symbols@);
            lemma_round_trip(symbols@);
        }
        let codes = build_codes(&table);
        match encode_symbols(&symbols, &codes) {
            Ok(bits) => (bits, codes),
            // Not reached: the table has a line for every symbol of the text.
            Err(_) => (Vec::new(), codes),
        }
    }
}

/// Turns a bit stream back into text with the codeword table it was made with.
pub struct Decoder {
    pub encoded_text: Vec<bool>,
    pub encoding_table: CodeTable,
}

impl Decoder {
    /// A decoder for the bit stream and its table.
    pub fn new(encoded_text: Vec<bool>, encoding_table: CodeTable) -> (decoder: Decoder)
        ensures
            decoder.encoded_text == encoded_text,
            decoder.encoding_table == encoding_table,
    {
        Decoder { encoded_text, encoding_table }
    }

    /// Decodes the bit stream: collects bits until they are a codeword of the
    /// table, writes its symbol and starts again. Fails where the stream ends
    /// with bits that are no codeword.
    pub fn decode(&self) -> (result: Result<String, DecodeError>)
        ensures
            match result {
                Ok(text) => decoded(self.encoded_text@, self.encoding_table@) == Some(text@),
                Err(DecodeError::Misaligned) => decoded(self.encoded_text@, self.encoding_table@) is None,
            },
    {
        let ghost bits = self.encoded_text@;
        let ghost table = self.encoding_table@;
        let mut pending: Vec<bool> = Vec::new();
        let mut symbols: Vec<char> = Vec::new();
        let mut i: usize = 0;
        assert(bits.skip(0) =~= bits);
        while i < self.encoded_text.len()
            invariant
                i <= self.encoded_text.len(),
                bits == self.encoded_text@,
                table == self.encoding_table@,
                decoded(bits, table) == prepend(symbols@, decode_from(bits.skip(i as int), table, pending@)),
            decreases self.encoded_text.len() - i,
        {
            let ghost rest = bits.skip(i as int);
            assert(rest.drop_first() =~= bits.skip(i + 1));
            pending.push(self.encoded_text[i]);
            match self.encoding_table.symbol_for(&pending) {
                Some(symbol) => {
                    symbols.push(symbol);
                    pending = Vec::new();
                },
                None => {},
            }
            i += 1;
        }
        if pending.len() == 0 {
            Ok(text_of(&symbols))
        } else {
            Err(DecodeError::Misaligned)
        }
    }
}

} // verus!
