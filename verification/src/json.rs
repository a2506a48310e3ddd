//! JSON texts, read value by value.
//!
//! `serde_json` says where a value ends and what a text or a flag holds. What stands between the
//! values of a list or a record is read here, so that every member of a record is seen, also one
//! whose key was there before.

use crate::text::same_text;
use serde::de::IgnoredAny;
use serde_json::Deserializer;
use vstd::prelude::*;

verus! {

/// How many bytes the first JSON value of `rest` takes, together with the white space before it;
/// nothing where no value begins.
pub uninterp spec fn json_value_len(rest: Seq<u8>) -> Option<nat>;

/// The text that a JSON string denotes; nothing for any other bytes.
pub uninterp spec fn json_string(value: Seq<u8>) -> Option<Seq<char>>;

/// The text that a JSON string denotes, no text for `null`; nothing for any other bytes.
pub uninterp spec fn json_optional_string(value: Seq<u8>) -> Option<Option<Seq<char>>>;

/// The flag that `true` or `false` denotes; nothing for any other bytes.
pub uninterp spec fn json_flag(value: Seq<u8>) -> Option<bool>;

/// `serde_json::StreamDeserializer`, asked once for an `IgnoredAny`: how many bytes the first
/// value takes, at least one and no more than there are. The value is passed over without a look
/// at what it holds: numbers of any size, any nesting, any escapes.
#[verifier::external_body]
fn value_len(rest: &[u8]) -> (r: Option<usize>)
    ensures
        match r {
            Some(n) => json_value_len(rest@) == Some(n as nat) && 0 < n <= rest@.len(),
            None => json_value_len(rest@) is None,
        },
{
    let mut values = Deserializer::from_slice(rest).into_iter::<IgnoredAny>();
    match values.next() {
        Some(Ok(_)) => Some(values.byte_offset()),
        _ => None,
    }
}

/// `serde_json::from_slice` into a `String`: the text of a JSON string, nothing for any other
/// bytes.
#[verifier::external_body]
pub(crate) fn read_string(value: &[u8]) -> (r: Option<String>)
    ensures
        match r {
            Some(text) => json_string(value@) == Some(text@),
            None => json_string(value@) is None,
        },
{
    serde_json::from_slice(value).ok()
}

/// `serde_json::from_slice` into an `Option<String>`: the text of a JSON string, no text for
/// `null`, nothing for any other bytes.
#[verifier::external_body]
pub(crate) fn read_optional_string(value: &[u8]) -> (r: Option<Option<String>>)
    ensures
        match r {
            Some(Some(text)) => json_optional_string(value@) == Some(Some(text@)),
            Some(None) => json_optional_string(value@) == Some(None::<Seq<char>>),
            None => json_optional_string(value@) is None,
        },
{
    serde_json::from_slice(value).ok()
}

/// `serde_json::from_slice` into a `bool`: the flag, nothing for bytes that are none.
#[verifier::external_body]
pub(crate) fn read_flag(value: &[u8]) -> (r: Option<bool>)
    ensures
        r == json_flag(value@),
{
    serde_json::from_slice(value).ok()
}

// ---------------------------------------------------------------------------
// Lists and records
// ---------------------------------------------------------------------------

/// Whether a byte is JSON white space.
pub open spec fn json_space(b: u8) -> bool {
    b == 0x20 || b == 0x0a || b == 0x09 || b == 0x0d
}

/// The first position from `at` on that holds no white space.
pub open spec fn after_space(text: Seq<u8>, at: int) -> int
    decreases text.len() - at,
{
    if 0 <= at < text.len() && json_space(text[at]) {
        after_space(text, at + 1)
    } else {
        at
    }
}

/// Whether `b` stands at `at`.
pub open spec fn byte_at(text: Seq<u8>, at: int, b: u8) -> bool {
    0 <= at < text.len() && text[at] == b
}

/// Where the value at `at` ends, with white space before it.
pub open spec fn value_end(text: Seq<u8>, at: int) -> Option<int> {
    match json_value_len(text.skip(at)) {
        Some(n) => if 0 < n <= text.len() - at {
            Some(at + n)
        } else {
            None
        },
        None => None,
    }
}

/// Whether nothing but white space follows from `at` on.
pub open spec fn ends_at(text: Seq<u8>, at: int) -> bool {
    after_space(text, at) == text.len()
}

/// The values of a list of which `before` were read and the next one begins at `at`: values with
/// a comma between any two, up to the bracket that ends the text.
pub open spec fn list_from(text: Seq<u8>, at: int, before: Seq<Seq<u8>>) -> Option<Seq<Seq<u8>>>
    decreases text.len() - at,
{
    if at < 0 || at > text.len() {
        None
    } else {
        match value_end(text, at) {
            None => None,
            Some(end) => {
                let all = before.push(text.subrange(at, end));
                let next = after_space(text, end);
                if end <= next && byte_at(text, next, 0x2c) {
                    list_from(text, next + 1, all)
                } else if byte_at(text, next, 0x5d) && ends_at(text, next + 1) {
                    Some(all)
                } else {
                    None
                }
            },
        }
    }
}

/// The key that begins at `at` and where its value begins: a string and a colon.
pub open spec fn key_at(text: Seq<u8>, at: int) -> Option<(Seq<char>, int)> {
    if !byte_at(text, at, 0x22) {
        None
    } else {
        match value_end(text, at) {
            None => None,
            Some(end) => match json_string(text.subrange(at, end)) {
                None => None,
                Some(key) => {
                    let colon = after_space(text, end);
                    if end <= colon && byte_at(text, colon, 0x3a) {
                        Some((key, colon + 1))
                    } else {
                        None
                    }
                },
            },
        }
    }
}

/// The members of a record of which `before` were read and the next one begins at `at`: keys with
/// their values and a comma between any two members, up to the brace that ends the text.
pub open spec fn record_from(
    text: Seq<u8>,
    at: int,
    before: Seq<(Seq<char>, Seq<u8>)>,
) -> Option<Seq<(Seq<char>, Seq<u8>)>>
    decreases text.len() - at,
{
    let begin = after_space(text, at);
    if at < 0 || at > text.len() || begin < at {
        None
    } else {
        match key_at(text, begin) {
            None => None,
            Some((key, value)) => match value_end(text, value) {
                None => None,
                Some(end) => {
                    let all = before.push((key, text.subrange(value, end)));
                    let next = after_space(text, end);
                    if at < value && end <= next && byte_at(text, next, 0x2c) {
                        record_from(text, next + 1, all)
                    } else if byte_at(text, next, 0x7d) && ends_at(text, next + 1) {
                        Some(all)
                    } else {
                        None
                    }
                },
            },
        }
    }
}

/// What a text holds at its top level.
pub enum ShapeModel {
    /// A list, with the texts of its values.
    List(Seq<Seq<u8>>),
    /// A record, with the key and the text of the value of each member, in order.
    Record(Seq<(Seq<char>, Seq<u8>)>),
    /// Neither.
    Other,
}

/// What `text` holds at its top level.
pub open spec fn shape_of(text: Seq<u8>) -> ShapeModel {
    let open = after_space(text, 0);
    let first = after_space(text, open + 1);
    if byte_at(text, open, 0x5b) {
        if byte_at(text, first, 0x5d) {
            if ends_at(text, first + 1) {
                ShapeModel::List(Seq::empty())
            } else {
                ShapeModel::Other
            }
        } else {
            match list_from(text, open + 1, Seq::empty()) {
                Some(values) => ShapeModel::List(values),
                None => ShapeModel::Other,
            }
        }
    } else if byte_at(text, open, 0x7b) {
        if byte_at(text, first, 0x7d) {
            if ends_at(text, first + 1) {
                ShapeModel::Record(Seq::empty())
            } else {
                ShapeModel::Other
            }
        } else {
            match record_from(text, open + 1, Seq::empty()) {
                Some(members) => ShapeModel::Record(members),
                None => ShapeModel::Other,
            }
        }
    } else {
        ShapeModel::Other
    }
}

/// What a text holds at its top level, with the texts of the values in it.
pub enum JsonShape<'a> {
    /// A list.
    List(Vec<&'a [u8]>),
    /// A record, member by member.
    Record(Vec<(String, &'a [u8])>),
    /// Neither.
    Other,
}

/// The texts of a list of values.
pub open spec fn value_texts(values: Seq<&[u8]>) -> Seq<Seq<u8>> {
    values.map_values(|v: &[u8]| v@)
}

/// The keys and the texts of the values of a list of members.
pub open spec fn member_texts(members: Seq<(String, &[u8])>) -> Seq<(Seq<char>, Seq<u8>)> {
    members.map_values(|m: (String, &[u8])| (m.0@, m.1@))
}

impl View for JsonShape<'_> {
    type V = ShapeModel;

    open spec fn view(&self) -> ShapeModel {
        match self {
            JsonShape::List(values) => ShapeModel::List(value_texts(values@)),
            JsonShape::Record(members) => ShapeModel::Record(member_texts(members@)),
            JsonShape::Other => ShapeModel::Other,
        }
    }
}

fn skip_space(text: &[u8], at: usize) -> (r: usize)
    requires
        at <= text@.len(),
    ensures
        r == after_space(text@, at as int),
        at <= r <= text@.len(),
{
    let mut i: usize = at;
    while i < text.len() && (text[i] == 0x20 || text[i] == 0x0a || text[i] == 0x09 || text[i]
        == 0x0d)
        invariant
            at <= i <= text@.len(),
            after_space(text@, i as int) == after_space(text@, at as int),
        decreases text@.len() - i,
    {
        i += 1;
    }
    i
}

fn is_byte_at(text: &[u8], at: usize, b: u8) -> (r: bool)
    ensures
        r == byte_at(text@, at as int, b),
        r ==> at < usize::MAX,
{
    at < text.len() && text[at] == b
}

fn find_value_end(text: &[u8], at: usize) -> (r: Option<usize>)
    requires
        at <= text@.len(),
    ensures
        match r {
            Some(end) => value_end(text@, at as int) == Some(end as int) && at < end <= text@.len(),
            None => value_end(text@, at as int) is None,
        },
{
    let rest = &text[at..text.len()];
    proof {
        assert(rest@ =~= text@.skip(at as int));
        assert(text.len() == text@.len());
    }
    match value_len(rest) {
        Some(n) => Some(at + n),
        None => None,
    }
}

fn read_list(text: &[u8], from: usize) -> (r: Option<Vec<&[u8]>>)
    requires
        from <= text@.len(),
    ensures
        match r {
            Some(values) => list_from(text@, from as int, Seq::empty()) == Some(
                value_texts(values@),
            ),
            None => list_from(text@, from as int, Seq::empty()) is None,
        },
{
    let mut values: Vec<&[u8]> = Vec::new();
    let mut at: usize = from;
    proof {
        assert(value_texts(values@) =~= Seq::<Seq<u8>>::empty());
    }
    loop
        invariant
            at <= text@.len(),
            list_from(text@, at as int, value_texts(values@)) == list_from(
                text@,
                from as int,
                Seq::empty(),
            ),
        decreases text@.len() - at,
    {
        let end = match find_value_end(text, at) {
            Some(end) => end,
            None => {
                return None;
            },
        };
        let value = &text[at..end];
        let ghost before = values@;
        values.push(value);
        proof {
            assert(value@ =~= text@.subrange(at as int, end as int));
            assert(value_texts(values@) =~= value_texts(before).push(value@));
        }
        let next: usize = skip_space(text, end);
        if is_byte_at(text, next, 0x2c) {
            at = next + 1;
        } else if is_byte_at(text, next, 0x5d) {
            if skip_space(text, next + 1) == text.len() {
                return Some(values);
            }
            return None;
        } else {
            return None;
        }
    }
}

fn read_key(text: &[u8], at: usize) -> (r: Option<(String, usize)>)
    requires
        at <= text@.len(),
    ensures
        match r {
            Some((key, value)) => key_at(text@, at as int) == Some((key@, value as int)) && at
                < value <= text@.len(),
            None => key_at(text@, at as int) is None,
        },
{
    if !is_byte_at(text, at, 0x22) {
        return None;
    }
    let end = match find_value_end(text, at) {
        Some(end) => end,
        None => {
            return None;
        },
    };
    let quoted = &text[at..end];
    proof {
        assert(quoted@ =~= text@.subrange(at as int, end as int));
    }
    let key = match read_string(quoted) {
        Some(key) => key,
        None => {
            return None;
        },
    };
    let colon: usize = skip_space(text, end);
    if is_byte_at(text, colon, 0x3a) {
        Some((key, colon + 1))
    } else {
        None
    }
}

fn read_record(text: &[u8], from: usize) -> (r: Option<Vec<(String, &[u8])>>)
    requires
        from <= text@.len(),
    ensures
        match r {
            Some(members) => record_from(text@, from as int, Seq::empty()) == Some(
                member_texts(members@),
            ),
            None => record_from(text@, from as int, Seq::empty()) is None,
        },
{
    let mut members: Vec<(String, &[u8])> = Vec::new();
    let mut at: usize = from;
    proof {
        assert(member_texts(members@) =~= Seq::<(Seq<char>, Seq<u8>)>::empty());
    }
    loop
        invariant
            at <= text@.len(),
            record_from(text@, at as int, member_texts(members@)) == record_from(
                text@,
                from as int,
                Seq::empty(),
            ),
        decreases text@.len() - at,
    {
        let begin: usize = skip_space(text, at);
        let (key, value) = match read_key(text, begin) {
            Some(found) => found,
            None => {
                return None;
            },
        };
        let end = match find_value_end(text, value) {
            Some(end) => end,
            None => {
                return None;
            },
        };
        let held = &text[value..end];
        let ghost before = members@;
        let ghost member = (key@, held@);
        members.push((key, held));
        proof {
            assert(held@ =~= text@.subrange(value as int, end as int));
            assert(member_texts(members@) =~= member_texts(before).push(member));
        }
        let next: usize = skip_space(text, end);
        if is_byte_at(text, next, 0x2c) {
            at = next + 1;
        } else if is_byte_at(text, next, 0x7d) {
            if skip_space(text, next + 1) == text.len() {
                return Some(members);
            }
            return None;
        } else {
            return None;
        }
    }
}

/// What `text` holds at its top level: the values of a list, the members of a record, or neither.
pub fn read_shape(text: &[u8]) -> (r: JsonShape<'_>)
    ensures
        r@ == shape_of(text@),
{
    let open: usize = skip_space(text, 0);
    if is_byte_at(text, open, 0x5b) {
        let first: usize = skip_space(text, open + 1);
        if is_byte_at(text, first, 0x5d) {
            if skip_space(text, first + 1) == text.len() {
                let values: Vec<&[u8]> = Vec::new();
                proof {
                    assert(value_texts(values@) =~= Seq::<Seq<u8>>::empty());
                }
                return JsonShape::List(values);
            }
            return JsonShape::Other;
        }
        match read_list(text, open + 1) {
            Some(values) => JsonShape::List(values),
            None => JsonShape::Other,
        }
    } else if is_byte_at(text, open, 0x7b) {
        let first: usize = skip_space(text, open + 1);
        if is_byte_at(text, first, 0x7d) {
            if skip_space(text, first + 1) == text.len() {
                let members: Vec<(String, &[u8])> = Vec::new();
                proof {
                    assert(member_texts(members@) =~= Seq::<(Seq<char>, Seq<u8>)>::empty());
                }
                return JsonShape::Record(members);
            }
            return JsonShape::Other;
        }
        match read_record(text, open + 1) {
            Some(members) => JsonShape::Record(members),
            None => JsonShape::Other,
        }
    } else {
        JsonShape::Other
    }
}

// ---------------------------------------------------------------------------
// Fields
// ---------------------------------------------------------------------------

/// How a record gives a field.
pub enum FieldModel {
    /// Not at all.
    Absent,
    /// Once, with this value.
    Once(Seq<u8>),
    /// More than once.
    Repeated,
}

/// How the members give the field `key`.
pub open spec fn members_field(members: Seq<(Seq<char>, Seq<u8>)>, key: Seq<char>) -> FieldModel
    decreases members.len(),
{
    if members.len() == 0 {
        FieldModel::Absent
    } else {
        let before = members_field(members.drop_last(), key);
        if members.last().0 != key {
            before
        } else if before is Absent {
            FieldModel::Once(members.last().1)
        } else {
            FieldModel::Repeated
        }
    }
}

/// How a record, which may also be written as the list of its values, gives the field `key` that
/// stands at `position` in the list.
pub open spec fn shape_field(shape: ShapeModel, key: Seq<char>, position: int) -> FieldModel {
    match shape {
        ShapeModel::Record(members) => members_field(members, key),
        ShapeModel::List(values) => if 0 <= position < values.len() {
            FieldModel::Once(values[position])
        } else {
            FieldModel::Absent
        },
        ShapeModel::Other => FieldModel::Absent,
    }
}

/// Whether a text of this shape can be a record of `fields` fields: a record, or a list that is
/// not longer.
pub open spec fn record_like(shape: ShapeModel, fields: int) -> bool {
    match shape {
        ShapeModel::Record(_) => true,
        ShapeModel::List(values) => values.len() <= fields,
        ShapeModel::Other => false,
    }
}

/// How a record gives a field.
pub enum JsonField<'a> {
    /// Not at all.
    Absent,
    /// Once, with this value.
    Once(&'a [u8]),
    /// More than once.
    Repeated,
}

impl View for JsonField<'_> {
    type V = FieldModel;

    open spec fn view(&self) -> FieldModel {
        match self {
            JsonField::Absent => FieldModel::Absent,
            JsonField::Once(value) => FieldModel::Once(value@),
            JsonField::Repeated => FieldModel::Repeated,
        }
    }
}

impl<'a> JsonShape<'a> {
    /// How this record, or the list of its values, gives the field `key` that stands at
    /// `position` in the list.
    pub fn field(&self, key: &str, position: usize) -> (r: JsonField<'a>)
        ensures
            r@ == shape_field(self@, key@, position as int),
    {
        match self {
            JsonShape::Other => JsonField::Absent,
            JsonShape::List(values) => {
                if position < values.len() {
                    proof {
                        assert(value_texts(values@)[position as int] == values@[position as int]@);
                    }
                    JsonField::Once(values[position])
                } else {
                    JsonField::Absent
                }
            },
            JsonShape::Record(members) => {
                let ghost all = member_texts(members@);
                let mut found: JsonField<'a> = JsonField::Absent;
                let mut i: usize = 0;
                proof {
                    assert(all.take(0) =~= Seq::<(Seq<char>, Seq<u8>)>::empty());
                }
                while i < members.len()
                    invariant
                        i <= members@.len(),
                        all == member_texts(members@),
                        found@ == members_field(all.take(i as int), key@),
                    decreases members@.len() - i,
                {
                    proof {
                        assert(all.take(i + 1).drop_last() =~= all.take(i as int));
                        assert(all.take(i + 1).last() == all[i as int]);
                        assert(all[i as int] == (members@[i as int].0@, members@[i as int].1@));
                    }
                    if same_text(members[i].0.as_str(), key) {
                        found = match found {
                            JsonField::Absent => JsonField::Once(members[i].1),
                            _ => JsonField::Repeated,
                        };
                    }
                    i += 1;
                }
                proof {
                    assert(all.take(i as int) =~= all);
                }
                found
            },
        }
    }

    /// Whether this can be a record of `fields` fields: a record, or a list that is not longer.
    pub fn is_record_like(&self, fields: usize) -> (r: bool)
        ensures
            r == record_like(self@, fields as int),
    {
        match self {
            JsonShape::Record(_) => true,
            JsonShape::List(values) => values.len() <= fields,
            JsonShape::Other => false,
        }
    }

    /// Whether this is a record that is written as such.
    pub fn is_record(&self) -> (r: bool)
        ensures
            r == (self@ is Record),
    {
        match self {
            JsonShape::Record(_) => true,
            _ => false,
        }
    }
}

// ---------------------------------------------------------------------------
// Laws
// ---------------------------------------------------------------------------

/// A member with another key, wherever it stands, changes nothing of a field.
pub proof fn law_other_members_change_nothing(
    before: Seq<(Seq<char>, Seq<u8>)>,
    other: (Seq<char>, Seq<u8>),
    after: Seq<(Seq<char>, Seq<u8>)>,
    key: Seq<char>,
)
    requires
        other.0 != key,
    ensures
        members_field(before.push(other) + after, key) == members_field(before + after, key),
    decreases after.len(),
{
    if after.len() == 0 {
        assert(before.push(other) + after =~= before.push(other));
        assert(before.push(other).drop_last() =~= before);
        assert(before + after =~= before);
    } else {
        let rest = after.drop_last();
        law_other_members_change_nothing(before, other, rest, key);
        assert((before.push(other) + after).drop_last() =~= before.push(other) + rest);
        assert((before + after).drop_last() =~= before + rest);
        assert((before.push(other) + after).last() == after.last());
        assert((before + after).last() == after.last());
    }
}

/// A field that two members give is always noticed as repeated.
pub proof fn law_repeated_members_are_noticed(
    members: Seq<(Seq<char>, Seq<u8>)>,
    key: Seq<char>,
    i: int,
    j: int,
)
    requires
        0 <= i < j < members.len(),
        members[i].0 == key,
        members[j].0 == key,
    ensures
        members_field(members, key) is Repeated,
    decreases members.len(),
{
    let rest = members.drop_last();
    if j < rest.len() {
        law_repeated_members_are_noticed(rest, key, i, j);
    } else {
        lemma_present(rest, key, i);
    }
}

proof fn lemma_present(members: Seq<(Seq<char>, Seq<u8>)>, key: Seq<char>, i: int)
    requires
        0 <= i < members.len(),
        members[i].0 == key,
    ensures
        !(members_field(members, key) is Absent),
    decreases members.len(),
{
    if i < members.len() - 1 {
        lemma_present(members.drop_last(), key, i);
    }
}

/// A field that one member gives has that member's value, and one that no member gives is absent.
pub proof fn law_field_of_one_member(
    members: Seq<(Seq<char>, Seq<u8>)>,
    key: Seq<char>,
    i: int,
)
    ensures
        (forall|j: int| 0 <= j < members.len() ==> (#[trigger] members[j]).0 != key)
            <==> members_field(members, key) is Absent,
        0 <= i < members.len() && members[i].0 == key && (forall|j: int|
            0 <= j < members.len() && j != i ==> (#[trigger] members[j]).0 != key)
            ==> members_field(members, key) == FieldModel::Once(members[i].1),
    decreases members.len(),
{
    if members.len() > 0 {
        let rest = members.drop_last();
        law_field_of_one_member(rest, key, i);
        assert(members[members.len() - 1] == members.last());
        if forall|j: int| 0 <= j < members.len() ==> (#[trigger] members[j]).0 != key {
            assert forall|j: int| 0 <= j < rest.len() implies (#[trigger] rest[j]).0 != key by {
                assert(members[j].0 != key);
            }
        }
        if members_field(members, key) is Absent {
            assert forall|j: int| 0 <= j < members.len() implies (
            #[trigger] members[j]).0 != key by {
                if j < rest.len() {
                    assert(rest[j].0 != key);
                }
            }
        }
        if 0 <= i < members.len() && members[i].0 == key && (forall|j: int|
            0 <= j < members.len() && j != i ==> (#[trigger] members[j]).0 != key) {
            assert forall|j: int| 0 <= j < rest.len() && j != i implies (
            #[trigger] rest[j]).0 != key by {
                assert(members[j].0 != key);
            }
            if i < rest.len() {
                assert(rest[i] == members[i]);
            }
        }
    }
}

/// The values of a list, with a comma between any two, and the closing bracket.
pub open spec fn list_text(values: Seq<Seq<u8>>) -> Seq<u8>
    decreases values.len(),
{
    if values.len() == 0 {
        seq![0x5d]
    } else if values.len() == 1 {
        values[0] + seq![0x5d]
    } else {
        values[0] + seq![0x2c] + list_text(values.drop_first())
    }
}

/// Whether each of the values is where a value ends in the text of the list.
pub open spec fn list_is_delimited(values: Seq<Seq<u8>>) -> bool
    decreases values.len(),
{
    values.len() > 0 ==> {
        &&& values[0].len() > 0
        &&& json_value_len(list_text(values)) == Some(values[0].len())
        &&& list_is_delimited(values.drop_first())
    }
}

/// A list is read as what it was written from: its values, in order and as they stand there.
pub proof fn law_lists_are_read_as_written(values: Seq<Seq<u8>>)
    requires
        values.len() > 0,
        list_is_delimited(values),
        ({
            let first = after_space(values[0], 0);
            first < values[0].len() && values[0][first] != 0x5d
        }),
    ensures
        shape_of(seq![0x5b] + list_text(values)) == ShapeModel::List(values),
        shape_of(seq![0x5bu8, 0x5du8]) == ShapeModel::List(Seq::empty()),
{
    let text = seq![0x5b] + list_text(values);
    assert(text.skip(1) =~= list_text(values));
    lemma_list_from(text, 1, Seq::empty(), values);
    assert(Seq::<Seq<u8>>::empty() + values =~= values);
    assert(after_space(text, 0) == 0);
    assert(text[0] == 0x5b);
    lemma_list_text_starts(values);
    lemma_after_space_within(text, 1, values[0], 0);
    let none = seq![0x5bu8, 0x5du8];
    assert(none[0] == 0x5b && none[1] == 0x5d);
    assert(after_space(none, 0) == 0);
    assert(after_space(none, 1) == 1);
    assert(after_space(none, 2) == 2);
}

proof fn lemma_list_text_starts(values: Seq<Seq<u8>>)
    requires
        values.len() > 0,
    ensures
        values[0].len() < list_text(values).len(),
        forall|k: int| 0 <= k < values[0].len() ==> list_text(values)[k] == #[trigger] values[0][k],
{
}

proof fn lemma_after_space_within(text: Seq<u8>, at: int, part: Seq<u8>, k: int)
    requires
        0 <= at,
        at + part.len() <= text.len(),
        0 <= k <= part.len(),
        forall|i: int| 0 <= i < part.len() ==> text[at + i] == #[trigger] part[i],
        after_space(part, k) < part.len(),
    ensures
        after_space(text, at + k) == at + after_space(part, k),
        after_space(part, k) >= k,
    decreases part.len() - k,
{
    if k < part.len() {
        assert(text[at + k] == part[k]);
        if json_space(part[k]) {
            lemma_after_space_within(text, at, part, k + 1);
        }
    }
}

proof fn lemma_list_from(text: Seq<u8>, at: int, before: Seq<Seq<u8>>, values: Seq<Seq<u8>>)
    requires
        0 <= at <= text.len(),
        values.len() > 0,
        text.skip(at) == list_text(values),
        list_is_delimited(values),
    ensures
        list_from(text, at, before) == Some(before + values),
    decreases values.len(),
{
    let v = values[0];
    let tail = text.skip(at);
    let end = at + v.len();
    lemma_list_text_starts(values);
    assert(tail.len() == text.len() - at);
    assert(value_end(text, at) == Some(end));
    assert forall|k: int| 0 <= k < v.len() implies text[at + k] == v[k] by {
        assert(tail[k] == text[at + k]);
    }
    assert(text.subrange(at, end) =~= v);
    assert(tail[v.len() as int] == text[end]);
    if values.len() == 1 {
        assert(list_text(values) == v + seq![0x5du8]);
        assert(text[end] == 0x5d);
        assert(!json_space(0x5d));
        assert(after_space(text, end) == end);
        assert(text.len() == end + 1);
        assert(after_space(text, end + 1) == end + 1);
        assert(before.push(v) =~= before + values);
    } else {
        let rest = values.drop_first();
        assert(list_text(values) == v + seq![0x2cu8] + list_text(rest));
        assert(text[end] == 0x2c);
        assert(!json_space(0x2c));
        assert(after_space(text, end) == end);
        assert(text.skip(end + 1) =~= list_text(rest)) by {
            assert(tail.skip(v.len() as int + 1) =~= list_text(rest));
            assert(tail.skip(v.len() as int + 1) =~= text.skip(end + 1));
        }
        lemma_list_from(text, end + 1, before.push(v), rest);
        assert(before.push(v) + rest =~= before + values);
    }
}

/// The fields of a record, which may also be written as the list of its values.
pub proof fn law_records_and_lists_of_their_values(
    members: Seq<(Seq<char>, Seq<u8>)>,
    values: Seq<Seq<u8>>,
    key: Seq<char>,
    position: int,
    fields: int,
)
    requires
        0 <= position,
    ensures
        shape_field(ShapeModel::Record(members), key, position) == members_field(members, key),
        position < values.len() ==> shape_field(ShapeModel::List(values), key, position)
            == FieldModel::Once(values[position]),
        position >= values.len() ==> shape_field(ShapeModel::List(values), key, position)
            is Absent,
        record_like(ShapeModel::Record(members), fields),
        record_like(ShapeModel::List(values), fields) <==> values.len() <= fields,
        !record_like(ShapeModel::Other, fields),
{
}

/// White space, which may stand between any two tokens, is blanks, tabs and line ends.
pub proof fn law_json_white_space(space: Seq<u8>, rest: Seq<u8>, b: u8)
    requires
        forall|i: int|
            0 <= i < space.len() ==> (#[trigger] space[i] == 0x20 || space[i] == 0x09 || space[i]
                == 0x0a || space[i] == 0x0d),
        rest.len() > 0 ==> rest[0] != 0x20 && rest[0] != 0x09 && rest[0] != 0x0a && rest[0]
            != 0x0d,
    ensures
        after_space(space + rest, 0) == space.len(),
        json_space(b) <==> b == 0x20 || b == 0x09 || b == 0x0a || b == 0x0d,
{
    lemma_after_spaces(space, rest, 0);
}

proof fn lemma_after_spaces(space: Seq<u8>, rest: Seq<u8>, k: int)
    requires
        0 <= k <= space.len(),
        forall|i: int| 0 <= i < space.len() ==> json_space(#[trigger] space[i]),
        rest.len() > 0 ==> !json_space(rest[0]),
    ensures
        after_space(space + rest, k) == space.len(),
    decreases space.len() - k,
{
    if k < space.len() {
        assert(json_space(space[k]));
        lemma_after_spaces(space, rest, k + 1);
    } else if rest.len() > 0 {
        assert((space + rest)[k] == rest[0]);
    }
}

/// The members of a record, each a key, a colon and a value, with a comma between any two, and the
/// closing brace.
pub open spec fn record_text(members: Seq<(Seq<u8>, Seq<u8>)>) -> Seq<u8>
    decreases members.len(), 1int,
{
    if members.len() == 0 {
        seq![0x7d]
    } else {
        members[0].0 + seq![0x3a] + value_text(members)
    }
}

/// What follows the colon of the first member.
pub open spec fn value_text(members: Seq<(Seq<u8>, Seq<u8>)>) -> Seq<u8>
    decreases members.len(), 0int,
    when members.len() > 0
{
    if members.len() == 1 {
        members[0].1 + seq![0x7d]
    } else {
        members[0].1 + seq![0x2c] + record_text(members.drop_first())
    }
}

/// Whether each key and each value is where a value ends in the text of the record.
pub open spec fn record_is_delimited(members: Seq<(Seq<u8>, Seq<u8>)>) -> bool
    decreases members.len(),
{
    members.len() > 0 ==> {
        &&& members[0].0.len() > 0 && members[0].0[0] == 0x22
        &&& json_string(members[0].0) is Some
        &&& json_value_len(record_text(members)) == Some(members[0].0.len())
        &&& members[0].1.len() > 0
        &&& json_value_len(value_text(members)) == Some(members[0].1.len())
        &&& record_is_delimited(members.drop_first())
    }
}

/// A record is read as what it was written from: its members, in order, each with its key and its
/// value as they stand there.
pub proof fn law_records_are_read_as_written(members: Seq<(Seq<u8>, Seq<u8>)>)
    requires
        members.len() > 0,
        record_is_delimited(members),
    ensures
        shape_of(seq![0x7b] + record_text(members)) == ShapeModel::Record(
            members.map_values(|m: (Seq<u8>, Seq<u8>)| (json_string(m.0)->0, m.1)),
        ),
        shape_of(seq![0x7bu8, 0x7du8]) == ShapeModel::Record(Seq::empty()),
{
    let read = members.map_values(|m: (Seq<u8>, Seq<u8>)| (json_string(m.0)->0, m.1));
    let text = seq![0x7b] + record_text(members);
    assert(text.skip(1) =~= record_text(members));
    lemma_record_from(text, 1, Seq::empty(), members);
    assert(Seq::<(Seq<char>, Seq<u8>)>::empty() + read =~= read);
    assert(text[0] == 0x7b);
    assert(after_space(text, 0) == 0);
    assert(text[1] == members[0].0[0]);
    assert(after_space(text, 1) == 1);
    let none = seq![0x7bu8, 0x7du8];
    assert(none[0] == 0x7b && none[1] == 0x7d);
    assert(after_space(none, 0) == 0);
    assert(after_space(none, 1) == 1);
    assert(after_space(none, 2) == 2);
}

proof fn lemma_record_from(
    text: Seq<u8>,
    at: int,
    before: Seq<(Seq<char>, Seq<u8>)>,
    members: Seq<(Seq<u8>, Seq<u8>)>,
)
    requires
        0 <= at <= text.len(),
        members.len() > 0,
        text.skip(at) == record_text(members),
        record_is_delimited(members),
    ensures
        record_from(text, at, before) == Some(
            before + members.map_values(|m: (Seq<u8>, Seq<u8>)| (json_string(m.0)->0, m.1)),
        ),
    decreases members.len(),
{
    let f = |m: (Seq<u8>, Seq<u8>)| (json_string(m.0)->0, m.1);
    let key = members[0].0;
    let v = members[0].1;
    let tail = text.skip(at);
    let colon = at + key.len();
    let value = colon + 1;
    let end = value + v.len();
    let behind = value_text(members);
    assert(tail == key + seq![0x3au8] + behind);
    assert(tail.len() == text.len() - at);
    assert forall|k: int| 0 <= k < tail.len() implies text[at + k] == #[trigger] tail[k] by {
    }
    assert(tail[0] == key[0]);
    assert(text[at] == 0x22);
    assert(after_space(text, at) == at);
    assert(value_end(text, at) == Some(colon));
    assert(text.subrange(at, colon) =~= key) by {
        assert forall|k: int| 0 <= k < key.len() implies text[at + k] == key[k] by {
            assert(tail[k] == key[k]);
        }
    }
    assert(tail[key.len() as int] == 0x3a);
    assert(text[colon] == 0x3a);
    assert(after_space(text, colon) == colon);
    assert(text.skip(value) =~= behind) by {
        assert(tail.skip(key.len() as int + 1) =~= behind);
        assert(tail.skip(key.len() as int + 1) =~= text.skip(value));
    }
    assert(value_end(text, value) == Some(end));
    let rest = text.skip(value);
    assert forall|k: int| 0 <= k < rest.len() implies text[value + k] == #[trigger] rest[k] by {
    }
    assert(text.subrange(value, end) =~= v) by {
        assert forall|k: int| 0 <= k < v.len() implies text[value + k] == v[k] by {
            assert(rest[k] == v[k]);
        }
    }
    let all = before.push((json_string(key)->0, v));
    if members.len() == 1 {
        assert(rest[v.len() as int] == 0x7d);
        assert(text[end] == 0x7d);
        assert(after_space(text, end) == end);
        assert(text.len() == end + 1);
        assert(after_space(text, end + 1) == end + 1);
        assert(all =~= before + members.map_values(f));
    } else {
        let more = members.drop_first();
        assert(rest[v.len() as int] == 0x2c);
        assert(text[end] == 0x2c);
        assert(after_space(text, end) == end);
        assert(text.skip(end + 1) =~= record_text(more)) by {
            assert(rest.skip(v.len() as int + 1) =~= record_text(more));
            assert(rest.skip(v.len() as int + 1) =~= text.skip(end + 1));
        }
        lemma_record_from(text, end + 1, all, more);
        assert(all + more.map_values(f) =~= before + members.map_values(f));
    }
}

} // verus!
