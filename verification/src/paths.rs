use vstd::prelude::*;
use vstd::string::StringExecFns;
use crate::text::{chars_of, text_of};

verus! {

/// Whether a character stays when a path is cleaned: every character but
/// the backslash does.
pub open spec fn kept(c: char) -> bool {
    c != '\\'
}

/// The path with every backslash taken out.
pub open spec fn cleaned(path: Seq<char>) -> Seq<char> {
    path.filter(|c: char| kept(c))
}

/// Takes every backslash out of a path; the other characters stay in order.
pub fn clean_file_path(input: &str) -> (path: String)
    ensures
        path@ == cleaned(input@),
{
    let symbols = chars_of(input);
    let mut kept_symbols: Vec<char> = Vec::new();
    let mut i: usize = 0;
    proof {
        reveal(Seq::filter);
    }
    while i < symbols.len()
        invariant
            i <= symbols.len(),
            kept_symbols@ == cleaned(symbols@.take(i as int)),
        decreases symbols.len() - i,
    {
        proof {
            reveal(Seq::filter);
            assert(symbols@.take(i + 1).drop_last() =~= symbols@.take(i as int));
        }
        if symbols[i] != '\\' {
            kept_symbols.push(symbols[i]);
        }
        i += 1;
    }
    assert(symbols@.take(i as int) =~= symbols@);
    text_of(&kept_symbols)
}

/// The text that ends the path of a dictionary.
pub open spec fn dictionary_suffix() -> Seq<char> {
    "_dictionary.txt"@
}

/// The text that ends the path of an encoded text.
pub open spec fn encoded_text_suffix() -> Seq<char> {
    "_encoded_text.txt"@
}

/// The path of a peer's artifact: the peer's address as directory, then the
/// file name with the suffix of the artifact.
pub open spec fn artifact_path(peer_ip: Seq<char>, file_name: Seq<char>, suffix: Seq<char>) -> Seq<char> {
    peer_ip + "/"@ + file_name + suffix
}

/// The path under which the dictionary of a peer's file is kept.
pub fn dictionary_path(peer_ip: &str, file_name: &str) -> (path: String)
    ensures
        path@ == artifact_path(peer_ip@, file_name@, dictionary_suffix()),
{
    let mut path = String::from_str(peer_ip);
    path.append("/");
    path.append(file_name);
    path.append("_dictionary.txt");
    path
}

/// The path under which the encoded text of a peer's file is kept.
pub fn encoded_text_path(peer_ip: &str, file_name: &str) -> (path: String)
    ensures
        path@ == artifact_path(peer_ip@, file_name@, encoded_text_suffix()),
{
    let mut path = String::from_str(peer_ip);
    path.append("/");
    path.append(file_name);
    path.append("_encoded_text.txt");
    path
}

} // verus!
