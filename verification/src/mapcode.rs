//! Reading a map code out of the page that a code service answers with.
use crate::text::{chars_of, find, first_place, lemma_first_place, occurs_at, slice, text_of};
use vstd::prelude::*;

verus! {

/// What stands in the page just before the map code.
pub open spec fn start_tag() -> Seq<char> {
    "name=\"mapcode\" value=\""@
}

/// The map code in `page`, if the page holds one: what stands between the
/// first start tag and the next double quote.
pub open spec fn mapcode_in(page: Seq<char>) -> Option<Seq<char>> {
    match first_place(page, start_tag()) {
        Some(at) => {
            let rest = page.skip(at + start_tag().len());
            match first_place(rest, seq!['"']) {
                Some(end) => Some(rest.take(end)),
                None => None,
            }
        },
        None => None,
    }
}

/// Reads the map code out of `page`.
pub fn extract_mapcode(page: &str) -> (code: Option<String>)
    ensures
        match code {
            Some(code) => mapcode_in(page@) == Some(code@),
            None => mapcode_in(page@) is None,
        },
{
    let text = chars_of(page);
    let tag = chars_of("name=\"mapcode\" value=\"");
    let mut quote: Vec<char> = Vec::new();
    quote.push('"');
    match find(&text, &tag, 0) {
        Some(at) => {
            let n = text.len();
            proof {
                lemma_first_place(text@, start_tag(), at as int);
            }
            let rest = slice(&text, at + tag.len(), n);
            match find(&rest, &quote, 0) {
                Some(end) => {
                    proof {
                        lemma_first_place(rest@, seq!['"'], end as int);
                    }
                    Some(text_of(&slice(&rest, 0, end)))
                },
                None => None,
            }
        },
        None => None,
    }
}

} // verus!
