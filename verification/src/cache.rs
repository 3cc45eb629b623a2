//! The cache files: one record a line, the fields of a record between
//! commas.

use vstd::prelude::*;
use vstd::string::{StringExecFns, StringSliceAdditionalSpecFns};
use vstd::utf8::{
    encode_utf8_valid_utf8, is_char_boundary, is_char_boundary_iff_not_is_continuation_byte,
};
use crate::channels::ChannelStorage;
use crate::text::{compare, utf8, Order};
use crate::users::User;

verus! {

pub const COMMA: u8 = 44;

/// The letter that the identifier of a channel begins with.
pub const CHANNEL_MARK: u8 = 67;

/// Offset of the first comma in `s`, or its length where it holds none.
pub open spec fn comma_index(s: Seq<u8>) -> int
    decreases s.len(),
{
    if s.len() == 0 || s[0] == COMMA {
        0
    } else {
        1 + comma_index(s.drop_first())
    }
}

/// The fields of a line: what stands before, between and after its commas.
/// A line without a comma is one field.
pub open spec fn fields(s: Seq<u8>) -> Seq<Seq<u8>>
    decreases s.len(),
{
    let i = comma_index(s);
    if 0 <= i < s.len() {
        seq![s.subrange(0, i)] + fields(s.subrange(i + 1, s.len() as int))
    } else {
        seq![s]
    }
}

pub proof fn lemma_comma_index(s: Seq<u8>, p: int)
    requires
        0 <= p <= s.len(),
        forall|j: int| 0 <= j < p ==> s[j] != COMMA,
        p < s.len() ==> s[p] == COMMA,
    ensures
        comma_index(s) == p,
    decreases p,
{
    if p > 0 {
        let rest = s.drop_first();
        assert forall|j: int| 0 <= j < p - 1 implies rest[j] != COMMA by {
            assert(rest[j] == s[j + 1]);
        }
        lemma_comma_index(rest, p - 1);
    }
}

/// The bytes of each piece.
pub open spec fn pieces(parts: Seq<&str>) -> Seq<Seq<u8>> {
    Seq::new(parts.len(), |k: int| parts[k].spec_bytes())
}

/// Cuts a line at its commas.
pub fn split_fields(line: &str) -> (parts: Vec<&str>)
    ensures
        pieces(parts@) == fields(line.spec_bytes()),
{
    let mut parts: Vec<&str> = Vec::new();
    let mut rest: &str = line;
    proof {
        assert(pieces(parts@) + fields(rest.spec_bytes()) =~= fields(line.spec_bytes()));
    }
    loop
        invariant_except_break
            pieces(parts@) + fields(rest.spec_bytes()) == fields(line.spec_bytes()),
        ensures
            pieces(parts@) == fields(line.spec_bytes()),
        decreases rest.spec_bytes().len(),
    {
        let bytes = rest.as_bytes();
        let ghost before = parts@;
        let mut i: usize = 0;
        while i < bytes.len() && bytes[i] != COMMA
            invariant
                i <= bytes@.len(),
                forall|j: int| 0 <= j < i ==> bytes@[j] != COMMA,
            decreases bytes@.len() - i,
        {
            i += 1;
        }
        proof {
            lemma_comma_index(bytes@, i as int);
            encode_utf8_valid_utf8(rest@);
        }
        if i == bytes.len() {
            parts.push(rest);
            proof {
                assert(pieces(parts@) =~= pieces(before) + seq![rest.spec_bytes()]);
            }
            break ;
        }
        proof {
            is_char_boundary_iff_not_is_continuation_byte(bytes@, i as int);
        }
        let (field, tail) = rest.split_at(i);
        proof {
            encode_utf8_valid_utf8(tail@);
            reveal_with_fuel(is_char_boundary, 2);
            assert(tail.spec_bytes()[0] == COMMA);
        }
        let (_, after) = tail.split_at(1);
        parts.push(field);
        proof {
            assert(after.spec_bytes() =~= bytes@.subrange(i + 1, bytes@.len() as int));
            assert(pieces(parts@) =~= pieces(before) + seq![bytes@.subrange(0, i as int)]);
            assert(pieces(parts@) + fields(after.spec_bytes()) =~= pieces(before) + fields(bytes@));
        }
        rest = after;
    }
    parts
}

/// The field says "true".
pub open spec fn is_true(field: Seq<u8>) -> bool {
    field == utf8("true"@)
}

/// The line is a record of `width` fields or more whose first field begins
/// with the letter C.
pub open spec fn is_record(line: Seq<u8>, width: int) -> bool {
    let f = fields(line);
    f.len() >= width && f[0].len() > 0 && f[0][0] == CHANNEL_MARK
}

/// `record` holds the fields of `line`.
pub open spec fn reads_channel(record: ChannelStorage, line: Seq<u8>) -> bool {
    let f = fields(line);
    &&& utf8(record.channel_id@) == f[0]
    &&& utf8(record.name@) == f[1]
    &&& record.custom == is_true(f[2])
    &&& record.ignore == is_true(f[3])
}

/// `user` holds the fields of `line`.
pub open spec fn reads_user(user: User, line: Seq<u8>) -> bool {
    let f = fields(line);
    &&& utf8(user.slack_user_id@) == f[0]
    &&& utf8(user.name@) == f[1]
    &&& user.should_follow == is_true(f[2])
}

fn says_true(field: &str) -> (yes: bool)
    ensures
        yes == is_true(field.spec_bytes()),
{
    let yes = compare(field, "true") == Order::Same;
    proof {
        if is_true(field.spec_bytes()) {
            crate::text::lemma_same_bytes_same_chars(field@, "true"@);
        }
    }
    yes
}

fn begins_with_mark(field: &str) -> (yes: bool)
    ensures
        yes == (field.spec_bytes().len() > 0 && field.spec_bytes()[0] == CHANNEL_MARK),
{
    let bytes = field.as_bytes();
    bytes.len() > 0 && bytes[0] == CHANNEL_MARK
}

/// Reads one line of the channel cache: identifier, name, whether the
/// channel was entered by hand, whether it is ignored. A line that is no
/// such record gives nothing.
pub fn parse_channel_line(line: &str) -> (record: Option<ChannelStorage>)
    ensures
        record is Some <==> is_record(line.spec_bytes(), 4),
        record matches Some(r) ==> reads_channel(r, line.spec_bytes()),
{
    let parts = split_fields(line);
    proof {
        assert(parts@.len() == pieces(parts@).len());
        assert(forall|k: int| 0 <= k < parts@.len() ==> parts@[k].spec_bytes() == pieces(parts@)[k]);
    }
    if parts.len() < 4 || !begins_with_mark(parts[0]) {
        return None;
    }
    Some(
        ChannelStorage {
            channel_id: parts[0].to_owned(),
            name: parts[1].to_owned(),
            custom: says_true(parts[2]),
            ignore: says_true(parts[3]),
        },
    )
}

/// Reads one line of the user cache: identifier, name, whether the user is
/// followed. A line that is no such record gives nothing.
pub fn parse_user_line(line: &str) -> (user: Option<User>)
    ensures
        user is Some <==> is_record(line.spec_bytes(), 3),
        user matches Some(u) ==> reads_user(u, line.spec_bytes()),
{
    let parts = split_fields(line);
    proof {
        assert(parts@.len() == pieces(parts@).len());
        assert(forall|k: int| 0 <= k < parts@.len() ==> parts@[k].spec_bytes() == pieces(parts@)[k]);
    }
    if parts.len() < 3 || !begins_with_mark(parts[0]) {
        return None;
    }
    Some(User::new(parts[0], parts[1], says_true(parts[2])))
}

/// The records among `lines`, in their order.
pub open spec fn records(lines: Seq<String>, width: int) -> Seq<String>
    decreases lines.len(),
{
    if lines.len() == 0 {
        Seq::empty()
    } else if is_record(utf8(lines.last()@), width) {
        records(lines.drop_last(), width).push(lines.last())
    } else {
        records(lines.drop_last(), width)
    }
}

/// Reads the channel cache from its lines. Lines that are no records are
/// passed over.
pub fn parse_channel_cache(lines: &Vec<String>) -> (cached: Vec<ChannelStorage>)
    ensures
        cached@.len() == records(lines@, 4).len(),
        forall|k: int|
            0 <= k < cached@.len() ==> reads_channel(
                #[trigger] cached@[k],
                utf8(records(lines@, 4)[k]@),
            ),
{
    let mut cached: Vec<ChannelStorage> = Vec::new();
    let mut i: usize = 0;
    proof {
        assert(lines@.take(0) =~= Seq::empty());
    }
    while i < lines.len()
        invariant
            i <= lines@.len(),
            cached@.len() == records(lines@.take(i as int), 4).len(),
            forall|k: int|
                0 <= k < cached@.len() ==> reads_channel(
                    #[trigger] cached@[k],
                    utf8(records(lines@.take(i as int), 4)[k]@),
                ),
        decreases lines@.len() - i,
    {
        proof {
            assert(lines@.take(i + 1).drop_last() =~= lines@.take(i as int));
        }
        if let Some(record) = parse_channel_line(lines[i].as_str()) {
            cached.push(record);
        }
        i += 1;
    }
    proof {
        assert(lines@.take(i as int) =~= lines@);
    }
    cached
}

/// Reads the user cache from its lines. Lines that are no records are
/// passed over.
pub fn parse_user_cache(lines: &Vec<String>) -> (users: Vec<User>)
    ensures
        users@.len() == records(lines@, 3).len(),
        forall|k: int|
            0 <= k < users@.len() ==> reads_user(
                #[trigger] users@[k],
                utf8(records(lines@, 3)[k]@),
            ),
{
    let mut users: Vec<User> = Vec::new();
    let mut i: usize = 0;
    proof {
        assert(lines@.take(0) =~= Seq::empty());
    }
    while i < lines.len()
        invariant
            i <= lines@.len(),
            users@.len() == records(lines@.take(i as int), 3).len(),
            forall|k: int|
                0 <= k < users@.len() ==> reads_user(
                    #[trigger] users@[k],
                    utf8(records(lines@.take(i as int), 3)[k]@),
                ),
        decreases lines@.len() - i,
    {
        proof {
            assert(lines@.take(i + 1).drop_last() =~= lines@.take(i as int));
        }
        if let Some(user) = parse_user_line(lines[i].as_str()) {
            users.push(user);
        }
        i += 1;
    }
    proof {
        assert(lines@.take(i as int) =~= lines@);
    }
    users
}

/// How a truth value is written.
pub open spec fn truth_word(b: bool) -> Seq<char> {
    if b {
        "true"@
    } else {
        "false"@
    }
}

/// The line that stores `record`: identifier, name, and whether the channel
/// was entered by hand.
pub open spec fn line_of(record: ChannelStorage) -> Seq<char> {
    record.channel_id@ + ","@ + record.name@ + ","@ + truth_word(record.custom)
}

/// The lines of the records, each but the last followed by a line break.
pub open spec fn cache_text_of(storage: Seq<ChannelStorage>) -> Seq<char>
    decreases storage.len(),
{
    if storage.len() == 0 {
        Seq::empty()
    } else if storage.len() == 1 {
        line_of(storage[0])
    } else {
        cache_text_of(storage.drop_last()) + "\n"@ + line_of(storage.last())
    }
}

/// Writes one record as a line of the channel cache.
pub fn channel_line(record: &ChannelStorage) -> (line: String)
    ensures
        line@ == line_of(*record),
{
    let mut line = record.channel_id.clone();
    line.append(",");
    line.append(record.name.as_str());
    line.append(",");
    line.append(if record.custom { "true" } else { "false" });
    proof {
        assert(line@ =~= line_of(*record));
    }
    line
}

/// The text of a channel cache that stores `storage`.
pub fn cache_text(storage: &Vec<ChannelStorage>) -> (text: String)
    ensures
        text@ == cache_text_of(storage@),
{
    let mut text = String::new();
    let mut i: usize = 0;
    proof {
        assert(storage@.take(0) =~= Seq::empty());
    }
    while i < storage.len()
        invariant
            i <= storage@.len(),
            text@ == cache_text_of(storage@.take(i as int)),
        decreases storage@.len() - i,
    {
        proof {
            let upto = storage@.take(i + 1);
            assert(upto.drop_last() =~= storage@.take(i as int));
            assert(upto.last() == storage@[i as int]);
            assert(upto[0] == storage@[0]);
        }
        if i > 0 {
            text.append("\n");
        }
        let line = channel_line(&storage[i]);
        text.append(line.as_str());
        proof {
            assert(text@ =~= cache_text_of(storage@.take(i + 1)));
        }
        i += 1;
    }
    proof {
        assert(storage@.take(i as int) =~= storage@);
    }
    text
}

} // verus!
