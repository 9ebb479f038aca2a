//! Where a frame came from and where one goes, as text.
//!
//! An origin is `can://<bus>/0x<id>?extended=<bool>`, a target
//! `can://<bus>/0x<id>`. Whatever follows a target's last slash may name an
//! identifier.

use vstd::prelude::*;

use crate::error::Error;
use crate::hex;

verus! {

/// `true` or `false`.
pub open spec fn flag(extended: bool) -> Seq<char> {
    if extended {
        "true"@
    } else {
        "false"@
    }
}

/// `can://<bus>/0x<id>`.
pub open spec fn target(bus: Seq<char>, id: u32) -> Seq<char> {
    "can://"@ + bus + "/0x"@ + hex::hex(id as int)
}

/// `?extended=<bool>`.
pub open spec fn query(extended: bool) -> Seq<char> {
    "?extended="@ + flag(extended)
}

/// `can://<bus>/0x<id>?extended=<bool>`.
pub open spec fn origin(bus: Seq<char>, id: u32, extended: bool) -> Seq<char> {
    target(bus, id) + query(extended)
}

/// What follows the last slash, or all of it where there is none.
pub open spec fn last_segment(text: Seq<char>) -> Seq<char>
    decreases text.len(),
{
    if text.len() == 0 || text.last() == '/' {
        Seq::empty()
    } else {
        last_segment(text.drop_last()).push(text.last())
    }
}

/// Whether a segment means to name an identifier: it starts with `0x`.
pub open spec fn names_identifier(segment: Seq<char>) -> bool {
    segment.len() >= 2 && segment[0] == '0' && segment[1] == 'x'
}

/// The identifier to send under: the one that `target` names, or `own` where
/// it names none. `None` where it means to name one that cannot be read.
pub open spec fn identifier(target: Seq<char>, own: u32) -> Option<u32> {
    let segment = last_segment(target);
    if names_identifier(segment) {
        hex::parsed(segment.skip(2))
    } else {
        Some(own)
    }
}

/// Text without a slash is its own last segment.
proof fn lemma_no_slash(text: Seq<char>)
    requires
        forall|i: int| 0 <= i < text.len() ==> text[i] != '/',
    ensures
        last_segment(text) == text,
    decreases text.len(),
{
    if text.len() > 0 {
        lemma_no_slash(text.drop_last());
    }
    assert(last_segment(text) =~= text);
}

/// What stands before a slash has no part in the last segment.
pub proof fn law_last_segment_forgets(before: Seq<char>, after: Seq<char>)
    ensures
        last_segment(before.push('/') + after) == last_segment(after),
    decreases after.len(),
{
    let whole = before.push('/') + after;
    if after.len() == 0 {
        assert(whole =~= before.push('/'));
    } else {
        law_last_segment_forgets(before, after.drop_last());
        assert(whole.drop_last() =~= before.push('/') + after.drop_last());
    }
}

/// Text that ends in the segment after its last slash.
proof fn lemma_segment_starts(text: Seq<char>, at: int)
    requires
        0 <= at <= text.len(),
        at == 0 || text[at - 1] == '/',
        forall|i: int| at <= i < text.len() ==> text[i] != '/',
    ensures
        last_segment(text) == text.skip(at),
{
    lemma_no_slash(text.skip(at));
    if at == 0 {
        assert(text.skip(0) =~= text);
    } else {
        law_last_segment_forgets(text.take(at - 1), text.skip(at));
        assert(text.take(at - 1).push('/') + text.skip(at) =~= text);
    }
}

/// A `can://` before a target, once or more often, changes nothing.
pub proof fn law_scheme_does_not_matter(target: Seq<char>, own: u32)
    ensures
        last_segment("can://"@ + target) == last_segment(target),
        identifier("can://"@ + target, own) == identifier(target, own),
{
    reveal_strlit("can://");
    law_last_segment_forgets("can://"@.drop_last(), target);
    assert("can://"@.drop_last().push('/') =~= "can://"@);
}

/// The last segment of a target: `0x` and the digits.
proof fn lemma_target_segment(bus: Seq<char>, id: u32, rest: Seq<char>)
    requires
        forall|i: int| 0 <= i < rest.len() ==> rest[i] != '/',
    ensures
        last_segment(target(bus, id) + rest) == seq!['0', 'x'] + hex::hex(id as int) + rest,
{
    reveal_strlit("can://");
    reveal_strlit("/0x");
    hex::law_hex_is_digits(id as int);
    let whole = target(bus, id) + rest;
    let at = "can://"@.len() + bus.len() + 1;
    let digits = hex::hex(id as int);
    assert(whole.skip(at as int) =~= seq!['0', 'x'] + digits + rest);
    assert forall|i: int| at <= i < whole.len() implies whole[i] != '/' by {
        assert(whole[i] == whole.skip(at as int)[i - at]);
        if 2 <= i - at < 2 + digits.len() {
            assert(hex::digit_value(digits[i - at - 2]) is Some);
        }
    }
    lemma_segment_starts(whole, at as int);
}

/// A target names the identifier that it was written with, on whatever bus
/// and whoever sends.
pub proof fn law_target_names_its_identifier(bus: Seq<char>, id: u32, own: u32)
    ensures
        identifier(target(bus, id), own) == Some(id),
{
    let digits = hex::hex(id as int);
    lemma_target_segment(bus, id, Seq::empty());
    assert(target(bus, id) + Seq::<char>::empty() =~= target(bus, id));
    assert((seq!['0', 'x'] + digits + Seq::<char>::empty()).skip(2) =~= digits);
    hex::law_hex_parses_back(id);
}

proof fn lemma_origin_segment(bus: Seq<char>, id: u32, extended: bool)
    ensures
        last_segment(origin(bus, id, extended)) == seq!['0', 'x'] + hex::hex(id as int) + query(
            extended,
        ),
{
    reveal_strlit("?extended=");
    reveal_strlit("true");
    reveal_strlit("false");
    lemma_target_segment(bus, id, query(extended));
}

/// An origin tells everything that it was written from: no two differ in the
/// bus, the identifier or the format and read the same.
pub proof fn law_origin_reads_back(
    bus: Seq<char>,
    id: u32,
    extended: bool,
    other_bus: Seq<char>,
    other_id: u32,
    other_extended: bool,
)
    requires
        origin(bus, id, extended) == origin(other_bus, other_id, other_extended),
    ensures
        bus == other_bus,
        id == other_id,
        extended == other_extended,
{
    reveal_strlit("can://");
    reveal_strlit("/0x");
    reveal_strlit("?extended=");
    reveal_strlit("true");
    reveal_strlit("false");
    let digits = hex::hex(id as int);
    let other_digits = hex::hex(other_id as int);
    let segment = seq!['0', 'x'] + digits + query(extended);
    let other_segment = seq!['0', 'x'] + other_digits + query(other_extended);
    lemma_origin_segment(bus, id, extended);
    lemma_origin_segment(other_bus, other_id, other_extended);
    hex::law_hex_is_digits(id as int);
    hex::law_hex_is_digits(other_id as int);
    assert(segment == other_segment);
    assert(segment.len() == 2 + digits.len() + query(extended).len());
    assert(other_segment.len() == 2 + other_digits.len() + query(other_extended).len());
    assert(segment[2 + digits.len() as int] == '?');
    assert(other_segment[2 + other_digits.len() as int] == '?');
    if digits.len() < other_digits.len() {
        assert(other_segment[2 + digits.len() as int] == other_digits[digits.len() as int]);
    } else if other_digits.len() < digits.len() {
        assert(segment[2 + other_digits.len() as int] == digits[other_digits.len() as int]);
    }
    assert(digits =~= segment.subrange(2, 2 + digits.len() as int));
    assert(other_digits =~= segment.subrange(2, 2 + digits.len() as int));
    hex::law_hex_parses_back(id);
    hex::law_hex_parses_back(other_id);
    assert(digits.len() == other_digits.len());
    assert(query(extended).len() == query(other_extended).len());
    let whole = origin(bus, id, extended);
    let other_whole = origin(other_bus, other_id, other_extended);
    assert(whole.len() == 9 + bus.len() + digits.len() + query(extended).len());
    assert(other_whole.len() == 9 + other_bus.len() + digits.len() + query(extended).len());
    assert(bus =~= whole.subrange(6, 6 + bus.len() as int));
    assert(other_bus =~= other_whole.subrange(6, 6 + other_bus.len() as int));
}

/// An origin is no target: sent to as it stands, its identifier cannot be
/// read.
pub proof fn law_origin_is_no_target(bus: Seq<char>, id: u32, extended: bool, own: u32)
    ensures
        identifier(origin(bus, id, extended), own) is None,
{
    reveal_strlit("?extended=");
    let digits = hex::hex(id as int);
    let segment = seq!['0', 'x'] + digits + query(extended);
    lemma_origin_segment(bus, id, extended);
    hex::law_hex_is_digits(id as int);
    assert(segment.skip(2) =~= digits + query(extended));
    assert(hex::digit_value(digits[0]) is Some);
    hex::lemma_no_digit_no_value(digits + query(extended), digits.len() as int);
}

/// How a target and an origin are spelled, of every bus, identifier and
/// format.
pub proof fn law_origin_is_spelled_out(bus: Seq<char>, id: u32)
    ensures
        target(bus, id) == "can://"@ + bus + "/0x"@ + hex::hex(id as int),
        origin(bus, id, true) == "can://"@ + bus + "/0x"@ + hex::hex(id as int)
            + "?extended=true"@,
        origin(bus, id, false) == "can://"@ + bus + "/0x"@ + hex::hex(id as int)
            + "?extended=false"@,
{
    reveal_strlit("?extended=");
    reveal_strlit("true");
    reveal_strlit("false");
    reveal_strlit("?extended=true");
    reveal_strlit("?extended=false");
    assert("?extended="@ + "true"@ =~= "?extended=true"@);
    assert("?extended="@ + "false"@ =~= "?extended=false"@);
    let start = target(bus, id);
    assert(start + ("?extended="@ + "true"@) =~= start + "?extended=true"@);
}

/// The last segment is what stands behind the last slash, and all of the text
/// where there is none.
pub proof fn law_segment_behind_the_last_slash(before: Seq<char>, segment: Seq<char>)
    requires
        !segment.contains('/'),
    ensures
        last_segment(before + "/"@ + segment) == segment,
        last_segment(segment) == segment,
{
    reveal_strlit("/");
    assert forall|i: int| 0 <= i < segment.len() implies segment[i] != '/' by {
        assert(segment.contains(segment[i]));
    }
    lemma_no_slash(segment);
    law_last_segment_forgets(before, segment);
    assert(before + "/"@ + segment =~= before.push('/') + segment);
}

/// What stands behind the last slash decides: `0x` and a number name that
/// number, `0x` and anything else names nothing that can be read, and text
/// that starts otherwise leaves the sender its own identifier.
pub proof fn law_identifier_behind_the_last_slash(
    before: Seq<char>,
    segment: Seq<char>,
    own: u32,
)
    requires
        !segment.contains('/'),
    ensures
        ({
            let named = if "0x"@.is_prefix_of(segment) {
                hex::parsed(segment.skip(2))
            } else {
                Some(own)
            };
            &&& identifier(before + "/"@ + segment, own) == named
            &&& identifier(segment, own) == named
        }),
{
    reveal_strlit("0x");
    law_segment_behind_the_last_slash(before, segment);
    if segment.len() >= 2 && segment[0] == '0' && segment[1] == 'x' {
        assert(segment.subrange(0, 2) =~= "0x"@);
    }
    if "0x"@.is_prefix_of(segment) {
        assert(segment.subrange(0, 2)[0] == segment[0]);
        assert(segment.subrange(0, 2)[1] == segment[1]);
    }
}

/// `can://<bus>/0x<id>`, as a string.
pub fn write_target(bus: &str, id: u32) -> (text: String)
    ensures
        text@ == target(bus@, id),
{
    let mut text = String::new();
    text.append("can://");
    text.append(bus);
    text.append("/0x");
    hex::append_hex(&mut text, id);
    assert(text@ =~= target(bus@, id));
    text
}

/// `can://<bus>/0x<id>?extended=<bool>`, as a string.
pub fn write_origin(bus: &str, id: u32, extended: bool) -> (text: String)
    ensures
        text@ == origin(bus@, id, extended),
{
    let mut text = write_target(bus, id);
    text.append("?extended=");
    text.append(
        if extended {
            "true"
        } else {
            "false"
        },
    );
    assert(text@ =~= origin(bus@, id, extended));
    text
}

/// The characters of `text`, in order.
fn characters(text: &str) -> (chars: Vec<char>)
    ensures
        chars@ == text@,
{
    let mut chars: Vec<char> = Vec::new();
    for c in iter: text.chars()
        invariant
            chars@ == iter.seq().take(iter.index()),
            iter.seq() == text@,
    {
        chars.push(c);
    }
    chars
}

/// The identifier to send under: the one that `target` names behind its last
/// slash, `0x` and hexadecimal digits, or `own` where it names none.
///
/// # Errors
/// Where what follows the `0x` is no 32-bit number.
pub fn read_identifier(target: &str, own: u32) -> (id: Result<u32, Error>)
    ensures
        match identifier(target@, own) {
            Some(named) => id == Ok::<u32, Error>(named),
            None => id matches Err(Error::NotAnIdentifier(segment)) && segment@ == last_segment(
                target@,
            ),
        },
{
    let chars = characters(target);
    let mut at: usize = chars.len();
    while at > 0 && chars[at - 1] != '/'
        invariant
            at <= chars@.len(),
            forall|i: int| at <= i < chars@.len() ==> chars@[i] != '/',
        decreases at,
    {
        at -= 1;
    }
    proof {
        lemma_segment_starts(target@, at as int);
    }
    if chars.len() - at >= 2 && chars[at] == '0' && chars[at + 1] == 'x' {
        assert(target@.skip(at as int).skip(2) =~= chars@.skip(at + 2));
        match hex::parse_hex(chars.as_slice(), at + 2) {
            Some(named) => Ok(named),
            None => {
                let segment = target.substring_char(at, chars.len());
                assert(segment@ =~= target@.skip(at as int));
                Err(Error::NotAnIdentifier(segment.to_owned()))
            },
        }
    } else {
        Ok(own)
    }
}

} // verus!
