//! The header fields of a request: a map from field name to value.
use vstd::prelude::*;
use crate::text::{
    lowercase, split_at_colon_space, split_header_line, to_lowercase, trim_crlf, trim_line_ends,
};

verus! {

/// Header fields, by name. Inserting a name that is already present replaces
/// its value, as a map does.
#[derive(Debug)]
pub struct Headers {
    entries: Vec<(String, String)>,
}

/// `i` is the last index of `e` whose name is `k`.
pub open spec fn last_index_of(e: Seq<(String, String)>, k: Seq<char>, i: int) -> bool {
    &&& 0 <= i < e.len()
    &&& e[i].0@ == k
    &&& forall|j: int| i < j < e.len() ==> e[j].0@ != k
}

impl View for Headers {
    type V = Map<Seq<char>, Seq<char>>;

    closed spec fn view(&self) -> Map<Seq<char>, Seq<char>> {
        Map::new(|k: Seq<char>| has_name(self.entries@, k), |k: Seq<char>| value_of(self.entries@, k))
    }
}

impl Headers {
    /// No header fields.
    pub fn new() -> (r: Headers)
        ensures
            r@ == Map::<Seq<char>, Seq<char>>::empty(),
    {
        let r = Headers { entries: Vec::new() };
        assert(r@ =~= Map::<Seq<char>, Seq<char>>::empty());
        r
    }

    /// The last index whose name is `key`, if any.
    fn find(&self, key: &String) -> (r: Option<usize>)
        ensures
            match r {
                Some(i) => last_index_of(self.entries@, key@, i as int),
                None => forall|j: int| 0 <= j < self.entries@.len() ==> self.entries@[j].0@ != key@,
            },
    {
        let mut i: usize = self.entries.len();
        while i > 0
            invariant
                i <= self.entries@.len(),
                forall|j: int| i <= j < self.entries@.len() ==> self.entries@[j].0@ != key@,
            decreases i,
        {
            i = i - 1;
            if self.entries[i].0 == *key {
                return Some(i);
            }
        }
        None
    }

    /// The value of the field named `key`, if there is one.
    pub fn get(&self, key: &str) -> (r: Option<&String>)
        ensures
            match r {
                Some(v) => self@.contains_key(key@) && v@ == self@[key@],
                None => !self@.contains_key(key@),
            },
    {
        let k = key.to_owned();
        match self.find(&k) {
            Some(i) => {
                proof {
                    lemma_value_at_last(self.entries@, key@, i as int);
                }
                Some(&self.entries[i].1)
            },
            None => None,
        }
    }

    /// Sets the field named `key` to `value`, replacing any earlier value.
    pub fn insert(&mut self, key: String, value: String)
        ensures
            final(self)@ == old(self)@.insert(key@, value@),
    {
        let ghost e0 = self.entries@;
        match self.find(&key) {
            Some(i) => {
                self.entries.set(i, (key, value));
                proof {
                    let e1 = self.entries@;
                    assert forall|k: Seq<char>| k != key@ implies has_name(e1, k) == has_name(e0, k)
                        && (has_name(e0, k) ==> value_of(e1, k) == value_of(e0, k)) by {
                        lemma_other_names(e0, e1, key@, k);
                    }
                    assert(e1[i as int].0@ == key@);
                    assert(has_name(e1, key@));
                    assert(last_index_of(e1, key@, i as int));
                    lemma_value_at_last(e1, key@, i as int);
                    assert(self@ =~= old(self)@.insert(key@, value@));
                }
            },
            None => {
                self.entries.push((key, value));
                proof {
                    let e1 = self.entries@;
                    let n = e0.len() as int;
                    assert forall|k: Seq<char>| k != key@ implies has_name(e1, k) == has_name(e0, k)
                        && (has_name(e0, k) ==> value_of(e1, k) == value_of(e0, k)) by {
                        lemma_other_names(e0, e1, key@, k);
                    }
                    assert(e1[n].0@ == key@);
                    assert(has_name(e1, key@));
                    lemma_value_at_last(e1, key@, n);
                    assert(self@ =~= old(self)@.insert(key@, value@));
                }
            },
        }
    }
}

/// Some entry of `e` is named `k`.
pub open spec fn has_name(e: Seq<(String, String)>, k: Seq<char>) -> bool {
    exists|i: int| 0 <= i < e.len() && e[i].0@ == k
}

/// The value of the last entry of `e` named `k`.
pub open spec fn value_of(e: Seq<(String, String)>, k: Seq<char>) -> Seq<char> {
    e[choose|i: int| last_index_of(e, k, i)].1@
}

/// The value stored under a name is that of its last entry.
proof fn lemma_value_at_last(e: Seq<(String, String)>, k: Seq<char>, i: int)
    requires
        last_index_of(e, k, i),
    ensures
        value_of(e, k) == e[i].1@,
{
    let c = choose|c: int| last_index_of(e, k, c);
    lemma_last_index_unique(e, k, c, i);
}

/// Entries of other names are untouched when entries named `key` change
/// (keeping their name) or new entries named `key` are appended.
proof fn lemma_other_names(
    e0: Seq<(String, String)>,
    e1: Seq<(String, String)>,
    key: Seq<char>,
    k: Seq<char>,
)
    requires
        k != key,
        e0.len() <= e1.len(),
        forall|j: int| 0 <= j < e0.len() ==> #[trigger] e1[j] == e0[j] || (e0[j].0@ == key
            && e1[j].0@ == key),
        forall|j: int| e0.len() <= j < e1.len() ==> #[trigger] e1[j].0@ == key,
    ensures
        has_name(e1, k) == has_name(e0, k),
        has_name(e0, k) ==> value_of(e1, k) == value_of(e0, k),
{
    if has_name(e1, k) {
        let j = choose|j: int| 0 <= j < e1.len() && e1[j].0@ == k;
        assert(j < e0.len());
        assert(e0[j].0@ == k);
    }
    if has_name(e0, k) {
        let j = choose|j: int| 0 <= j < e0.len() && e0[j].0@ == k;
        assert(e1[j].0@ == k);
        lemma_last_index_exists(e0, k, j);
        let c = choose|c: int| last_index_of(e0, k, c);
        assert(e1[c] == e0[c]);
        assert forall|j2: int| c < j2 < e1.len() implies e1[j2].0@ != k by {
            if j2 < e0.len() {
                assert(e1[j2] == e0[j2] || e1[j2].0@ == key);
            }
        }
        assert(last_index_of(e1, k, c));
        lemma_value_at_last(e0, k, c);
        lemma_value_at_last(e1, k, c);
    }
}

/// A name that occurs has a last occurrence.
proof fn lemma_last_index_exists(e: Seq<(String, String)>, k: Seq<char>, j: int)
    requires
        0 <= j < e.len(),
        e[j].0@ == k,
    ensures
        exists|c: int| last_index_of(e, k, c),
    decreases e.len() - j,
{
    if !last_index_of(e, k, j) {
        let j2 = choose|j2: int| j < j2 < e.len() && e[j2].0@ == k;
        lemma_last_index_exists(e, k, j2);
    }
}

/// A name has at most one last occurrence.
proof fn lemma_last_index_unique(e: Seq<(String, String)>, k: Seq<char>, a: int, b: int)
    requires
        last_index_of(e, k, a),
        last_index_of(e, k, b),
    ensures
        a == b,
{
}

/// The header fields named by `lines`, read in order. A line with a `": "`
/// sets the field named by the lowercase text before it to the lowercase text
/// after it (with its trailing CRLFs removed first when `trim_line_end`);
/// other lines are skipped; a later line for the same name wins.
pub open spec fn header_map(lines: Seq<Seq<char>>, trim_line_end: bool) -> Map<
    Seq<char>,
    Seq<char>,
>
    decreases lines.len(),
{
    if lines.len() == 0 {
        Map::empty()
    } else {
        let m = header_map(lines.drop_last(), trim_line_end);
        match split_at_colon_space(lines.last()) {
            Some((k, v)) => m.insert(
                lowercase(k),
                lowercase(
                    if trim_line_end {
                        trim_line_ends(v)
                    } else {
                        v
                    },
                ),
            ),
            None => m,
        }
    }
}

/// The header fields of a request read from its header lines.
pub fn headers_from_lines(lines: &Vec<String>, trim_line_end: bool) -> (r: Headers)
    ensures
        r@ == header_map(lines.deep_view(), trim_line_end),
{
    let mut h = Headers::new();
    let mut i: usize = 0;
    assert(lines.deep_view().take(0) =~= Seq::<Seq<char>>::empty());
    while i < lines.len()
        invariant
            i <= lines@.len(),
            h@ == header_map(lines.deep_view().take(i as int), trim_line_end),
        decreases lines.len() - i,
    {
        let ghost before = lines.deep_view().take(i as int);
        let ghost after = lines.deep_view().take(i + 1);
        assert(after.drop_last() =~= before);
        assert(after.last() == lines@[i as int]@);
        match split_header_line(lines[i].as_str()) {
            Some((name, value)) => {
                let key = to_lowercase(name.as_str());
                let v = if trim_line_end {
                    trim_crlf(value.as_str())
                } else {
                    value
                };
                let val = to_lowercase(v.as_str());
                h.insert(key, val);
            },
            None => {},
        }
        i = i + 1;
    }
    assert(lines.deep_view().take(lines.len() as int) =~= lines.deep_view());
    h
}

/// Reading a field after setting it gives the value that was set, and
/// setting one field leaves every other field as it was.
pub proof fn lemma_get_after_insert(
    fields: Map<Seq<char>, Seq<char>>,
    name: Seq<char>,
    value: Seq<char>,
    other: Seq<char>,
)
    requires
        other != name,
    ensures
        fields.insert(name, value).contains_key(name),
        fields.insert(name, value)[name] == value,
        fields.insert(name, value).contains_key(other) == fields.contains_key(other),
        fields.contains_key(other) ==> fields.insert(name, value)[other] == fields[other],
{
}

/// The line is a header field line: it holds a `": "`.
pub open spec fn is_field_line(line: Seq<char>) -> bool {
    split_at_colon_space(line) is Some
}

/// The field name a header line gives: the text before its first `": "`, lowercased.
pub open spec fn field_name(line: Seq<char>) -> Seq<char> {
    lowercase(split_at_colon_space(line).unwrap().0)
}

/// The field value a header line gives: the text after its first `": "`,
/// with trailing CRLFs removed when `trim_line_end`, lowercased.
pub open spec fn field_value(line: Seq<char>, trim_line_end: bool) -> Seq<char> {
    let v = split_at_colon_space(line).unwrap().1;
    lowercase(
        if trim_line_end {
            trim_line_ends(v)
        } else {
            v
        },
    )
}

/// What the header map holds, line by line: a name is present exactly when
/// some field line gives it, and its value is the one given by the last field
/// line with that name. Every field line counts, however many lines precede it.
pub proof fn lemma_header_map_fields(lines: Seq<Seq<char>>, trim_line_end: bool)
    ensures
        forall|key: Seq<char>|
            #![trigger header_map(lines, trim_line_end).contains_key(key)]
            header_map(lines, trim_line_end).contains_key(key) <==> exists|i: int|
                0 <= i < lines.len() && is_field_line(lines[i]) && field_name(lines[i]) == key,
        forall|i: int|
            #![trigger field_name(lines[i])]
            0 <= i < lines.len() && is_field_line(lines[i]) && (forall|j: int|
                i < j < lines.len() && is_field_line(lines[j]) ==> field_name(lines[j])
                    != field_name(lines[i])) ==> header_map(lines, trim_line_end).contains_key(
                field_name(lines[i]),
            ) && header_map(lines, trim_line_end)[field_name(lines[i])] == field_value(
                lines[i],
                trim_line_end,
            ),
    decreases lines.len(),
{
    if lines.len() > 0 {
        let prev = lines.drop_last();
        let last = lines.len() - 1;
        lemma_header_map_fields(prev, trim_line_end);
        let m = header_map(lines, trim_line_end);
        let m0 = header_map(prev, trim_line_end);
        assert(lines.last() == lines[last]);
        assert forall|key: Seq<char>| m.contains_key(key) <==> exists|i: int|
            0 <= i < lines.len() && is_field_line(lines[i]) && field_name(lines[i]) == key by {
            if m.contains_key(key) {
                if is_field_line(lines[last]) && field_name(lines[last]) == key {
                } else {
                    assert(m0.contains_key(key));
                    let i = choose|i: int|
                        0 <= i < prev.len() && is_field_line(prev[i]) && field_name(prev[i]) == key;
                    assert(lines[i] == prev[i]);
                }
            }
            if exists|i: int|
                0 <= i < lines.len() && is_field_line(lines[i]) && field_name(lines[i]) == key {
                let i = choose|i: int|
                    0 <= i < lines.len() && is_field_line(lines[i]) && field_name(lines[i]) == key;
                if i < last {
                    assert(prev[i] == lines[i]);
                    assert(m0.contains_key(key));
                }
            }
        }
        assert forall|i: int|
            0 <= i < lines.len() && is_field_line(lines[i]) && (forall|j: int|
                i < j < lines.len() && is_field_line(lines[j]) ==> field_name(lines[j])
                    != field_name(lines[i])) implies m.contains_key(#[trigger] field_name(lines[i]))
            && m[field_name(lines[i])] == field_value(lines[i], trim_line_end) by {
            if i < last {
                assert(prev[i] == lines[i]);
                assert forall|j: int|
                    i < j < prev.len() && is_field_line(prev[j]) implies field_name(prev[j])
                    != field_name(prev[i]) by {
                    assert(prev[j] == lines[j]);
                }
                assert(m0.contains_key(field_name(prev[i])));
            }
        }
    }
}

} // verus!
