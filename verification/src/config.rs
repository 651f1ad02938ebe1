//! Settings that come from the environment.
use crate::text::{
    decimal, digits_of, law_numbers_are_read_from_their_digits, parse_u64, u64_of, unsigned_digits,
};
use vstd::prelude::*;
use vstd::string::*;

verus! {

/// The size of the entity cache, in thousands of bytes, where none is set.
pub open spec fn default_entity_cache_kilobytes() -> Seq<char> {
    "10000"@
}

/// The size limit of the entity cache, in bytes, for a setting in thousands of bytes.
/// `None` stands for a setting that is no number, or too large a number.
pub open spec fn entity_cache_bytes(setting: Option<Seq<char>>) -> Option<u64> {
    let text = match setting {
        Some(text) => text,
        None => default_entity_cache_kilobytes(),
    };
    match u64_of(text) {
        Some(kilobytes) if 1000 * kilobytes <= u64::MAX => Some((1000 * kilobytes) as u64),
        _ => None,
    }
}

proof fn lemma_default_entity_cache_bytes()
    ensures
        entity_cache_bytes(None) == Some(10_000_000u64),
{
    reveal_strlit("10000");
    let text = "10000"@;
    assert(unsigned_digits(text) == text);
    reveal_with_fuel(decimal, 6);
    assert(text.drop_last() =~= seq!['1', '0', '0', '0']);
    assert(text.drop_last().drop_last() =~= seq!['1', '0', '0']);
    assert(text.drop_last().drop_last().drop_last() =~= seq!['1', '0']);
    assert(text.drop_last().drop_last().drop_last().drop_last() =~= seq!['1']);
    assert(decimal(text) == 10000);
}

/// The size limit of the entity cache, in bytes, from the setting
/// `GRAPH_ENTITY_CACHE_SIZE`, which is in thousands of bytes. `None` means that the setting
/// is invalid.
pub fn entity_cache_size(setting: Option<String>) -> (r: Option<u64>)
    ensures
        setting matches Some(text) ==> r == entity_cache_bytes(Some(text@)),
        setting is None ==> r == entity_cache_bytes(None) && r == Some(10_000_000u64),
{
    proof {
        lemma_default_entity_cache_bytes();
    }
    let kilobytes = match setting {
        Some(text) => parse_u64(text.as_str()),
        None => parse_u64("10000"),
    };
    match kilobytes {
        Some(kilobytes) => {
            if kilobytes > u64::MAX / 1000 {
                None
            } else {
                Some(1000 * kilobytes)
            }
        },
        None => None,
    }
}

/// The setting is in thousands of bytes: a number is taken times a thousand, and is invalid
/// exactly if that does not fit. A text that is no number is invalid.
pub proof fn law_cache_size_is_in_thousands(kilobytes: nat, text: Seq<char>)
    ensures
        1000 * kilobytes <= u64::MAX ==> entity_cache_bytes(Some(digits_of(kilobytes))) == Some(
            (1000 * kilobytes) as u64,
        ),
        1000 * kilobytes > u64::MAX ==> entity_cache_bytes(Some(digits_of(kilobytes))) is None,
        u64_of(text) is None ==> entity_cache_bytes(Some(text)) is None,
        entity_cache_bytes(Some(text)) matches Some(bytes) ==> (u64_of(text) matches Some(read)
            && bytes == 1000 * read),
        u64_of(text) matches Some(read) ==> (1000 * read <= u64::MAX <==> entity_cache_bytes(
            Some(text),
        ) is Some),
{
    law_numbers_are_read_from_their_digits(kilobytes);
}

} // verus!
