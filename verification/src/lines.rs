//! The lines in which settings are written down: a key and a value, each in
//! double quotes, with a colon between them.
use crate::params::Param;
use crate::text::{
    chars_of, find, first_place, lemma_first_place, occurs_at, slice, strip, stripped, text_of,
    trimmed, Strip,
};
use vstd::prelude::*;

verus! {

/// What stands between a key and its value: the quote that ends the key, a
/// colon, and the quote that begins the value.
pub open spec fn separator() -> Seq<char> {
    seq!['"', ':', '"']
}

/// The line for `value` under `key`, with its line feed.
pub open spec fn line_of(key: Seq<char>, value: Seq<char>) -> Seq<char> {
    seq!['"'] + key + separator() + value + seq!['"', '\n']
}

/// The key and the value that `line` holds, if it is well formed: without
/// the white space around it, it holds the separator once. The key is what
/// stands before the separator, the value what stands behind it, each
/// without the quotes at its ends.
pub open spec fn parsed_line(line: Seq<char>) -> Option<(Seq<char>, Seq<char>)> {
    let text = trimmed(line);
    match first_place(text, separator()) {
        Some(at) => {
            let rest = text.skip(at + 3);
            if first_place(rest, separator()) is Some {
                None
            } else {
                Some((stripped(text.take(at), Strip::Quotes), stripped(rest, Strip::Quotes)))
            }
        },
        None => None,
    }
}

/// The separator, as characters.
fn separator_chars() -> (chars: Vec<char>)
    ensures
        chars@ == separator(),
{
    let mut chars: Vec<char> = Vec::new();
    chars.push('"');
    chars.push(':');
    chars.push('"');
    chars
}

/// The line for `param`, with its line feed.
pub fn format_line(param: &Param) -> (line: String)
    ensures
        line@ == line_of(param.key@, param.value@),
{
    line_for(param.key.as_str(), param.value.as_str())
}

/// The line for `value` under `key`, with its line feed.
pub fn line_for(key: &str, value: &str) -> (line: String)
    ensures
        line@ == line_of(key@, value@),
{
    let key = chars_of(key);
    let value = chars_of(value);
    let mut chars: Vec<char> = Vec::new();
    chars.push('"');
    let mut i: usize = 0;
    while i < key.len()
        invariant
            i <= key.len(),
            chars@ == seq!['"'] + key@.take(i as int),
        decreases key.len() - i,
    {
        chars.push(key[i]);
        i += 1;
    }
    chars.push('"');
    chars.push(':');
    chars.push('"');
    let ghost head = chars@;
    let mut k: usize = 0;
    while k < value.len()
        invariant
            k <= value.len(),
            chars@ == head + value@.take(k as int),
        decreases value.len() - k,
    {
        chars.push(value[k]);
        k += 1;
    }
    chars.push('"');
    chars.push('\n');
    text_of(&chars)
}

/// Reads the key and the value out of `line`, if the line is well formed.
pub fn parse_line(line: &str) -> (param: Option<Param>)
    ensures
        match param {
            Some(param) => parsed_line(line@) == Some((param.key@, param.value@)),
            None => parsed_line(line@) is None,
        },
{
    let text = strip(&chars_of(line), Strip::WhiteSpace);
    let pattern = separator_chars();
    match find(&text, &pattern, 0) {
        Some(at) => {
            let n = text.len();
            proof {
                lemma_first_place(text@, separator(), at as int);
            }
            let rest = slice(&text, at + 3, n);
            match find(&rest, &pattern, 0) {
                Some(again) => {
                    proof {
                        lemma_first_place(rest@, separator(), again as int);
                    }
                    None
                },
                None => {
                    let key = strip(&slice(&text, 0, at), Strip::Quotes);
                    let value = strip(&rest, Strip::Quotes);
                    Some(Param { key: text_of(&key), value: text_of(&value) })
                },
            }
        },
        None => None,
    }
}

} // verus!
