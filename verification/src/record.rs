//! The display-ready outcome of one HTTP request: decoded headers and body.

use vstd::prelude::*;
use vstd::pervasive::VecAdditionalExecFns;
use vstd::string::StringExecFns;

verus! {

broadcast use vstd::set::group_set_axioms;

/// A header value byte that can be shown as text: visible ASCII, space or
/// tab.
pub open spec fn displayable_byte(b: u8) -> bool {
    32 <= b < 127 || b == 9
}

/// A header value is displayable when all of its bytes are.
pub open spec fn displayable(bytes: Seq<u8>) -> bool {
    forall|i: int| 0 <= i < bytes.len() ==> displayable_byte(#[trigger] bytes[i])
}

/// The characters shown for a displayable header value: one per byte.
pub open spec fn chars_of(bytes: Seq<u8>) -> Seq<char> {
    bytes.map(|i: int, b: u8| b as char)
}

/// The text substituted for a header value that is not displayable.
pub open spec fn header_placeholder() -> Seq<char> {
    "nothing found"@
}

/// The text substituted for a body that could not be read as text.
pub open spec fn body_placeholder() -> Seq<char> {
    "nothing in body"@
}

/// The text shown for a header value: the value's own characters when it is
/// displayable, the fixed placeholder otherwise.
pub open spec fn header_display_of(bytes: Seq<u8>) -> Seq<char> {
    if displayable(bytes) {
        chars_of(bytes)
    } else {
        header_placeholder()
    }
}

/// Relies on String::from_utf8: bytes below 128 are ASCII, hence valid
/// UTF-8, and decode to one character per byte.
#[verifier::external_body]
fn ascii_string(bytes: &Vec<u8>) -> (r: String)
    requires
        forall|i: int| 0 <= i < bytes@.len() ==> bytes@[i] < 128,
    ensures
        r@ == chars_of(bytes@),
{
    String::from_utf8(bytes.clone()).unwrap()
}

/// Decode one header value for display: its own text when every byte is
/// displayable, the fixed placeholder otherwise.
pub fn header_display(bytes: &Vec<u8>) -> (r: String)
    ensures
        r@ == header_display_of(bytes@),
{
    let mut i: usize = 0;
    while i < bytes.len()
        invariant
            i <= bytes@.len(),
            forall|j: int| 0 <= j < i ==> displayable_byte(#[trigger] bytes@[j]),
        decreases bytes@.len() - i,
    {
        let b = bytes[i];
        if (b < 32 || b >= 127) && b != 9 {
            return String::from_str("nothing found");
        }
        i += 1;
    }
    ascii_string(bytes)
}

/// No header name occurs twice among the rows.
pub open spec fn distinct_keys(s: Seq<(String, String)>) -> bool {
    forall|i: int, j: int| 0 <= i < j < s.len() ==> (#[trigger] s[i]).0@ != (#[trigger] s[j]).0@
}

/// The mapping that a sequence of header rows denotes: a later row with the
/// same name overwrites an earlier one.
pub open spec fn pairs_map(s: Seq<(String, String)>) -> Map<Seq<char>, Seq<char>>
    decreases s.len(),
{
    if s.len() == 0 {
        Map::empty()
    } else {
        pairs_map(s.drop_last()).insert(s.last().0@, s.last().1@)
    }
}

proof fn lemma_distinct_drop_last(s: Seq<(String, String)>)
    requires
        distinct_keys(s),
        s.len() > 0,
    ensures
        distinct_keys(s.drop_last()),
{
    assert forall|i: int, j: int|
        0 <= i < j < s.drop_last().len() implies (#[trigger] s.drop_last()[i]).0@ != (
    #[trigger] s.drop_last()[j]).0@ by {
        assert(s.drop_last()[i] == s[i]);
        assert(s.drop_last()[j] == s[j]);
    }
}

/// Each row of a duplicate-free sequence is found in its map.
proof fn lemma_pairs_map_index(s: Seq<(String, String)>, j: int)
    requires
        distinct_keys(s),
        0 <= j < s.len(),
    ensures
        pairs_map(s).contains_key(s[j].0@),
        pairs_map(s)[s[j].0@] == s[j].1@,
    decreases s.len(),
{
    if j < s.len() - 1 {
        lemma_distinct_drop_last(s);
        assert(s.drop_last()[j] == s[j]);
        lemma_pairs_map_index(s.drop_last(), j);
        assert(s.last().0@ != s[j].0@);
    }
}

/// A key is in the map exactly when some row bears it.
proof fn lemma_pairs_map_domain(s: Seq<(String, String)>, k: Seq<char>)
    ensures
        pairs_map(s).contains_key(k) <==> exists|j: int| 0 <= j < s.len() && (#[trigger] s[j]).0@
            == k,
    decreases s.len(),
{
    if s.len() > 0 {
        lemma_pairs_map_domain(s.drop_last(), k);
        if s.last().0@ == k {
            assert(s[s.len() - 1].0@ == k);
        } else if exists|j: int| 0 <= j < s.drop_last().len() && (#[trigger] s.drop_last()[j]).0@
            == k {
            let j = choose|j: int|
                0 <= j < s.drop_last().len() && (#[trigger] s.drop_last()[j]).0@ == k;
            assert(s[j].0@ == k);
        } else if exists|j: int| 0 <= j < s.len() && (#[trigger] s[j]).0@ == k {
            let j = choose|j: int| 0 <= j < s.len() && (#[trigger] s[j]).0@ == k;
            assert(s.drop_last()[j] == s[j]);
        }
    }
}

/// A duplicate-free row sequence and its map have the same size.
proof fn lemma_pairs_map_dom_len(s: Seq<(String, String)>)
    requires
        distinct_keys(s),
    ensures
        pairs_map(s).dom().finite(),
        pairs_map(s).dom().len() == s.len(),
    decreases s.len(),
{
    if s.len() > 0 {
        lemma_distinct_drop_last(s);
        lemma_pairs_map_dom_len(s.drop_last());
        lemma_pairs_map_domain(s.drop_last(), s.last().0@);
        assert forall|j: int| 0 <= j < s.drop_last().len() implies (#[trigger] s.drop_last()[j]).0@
            != s.last().0@ by {
            assert(s.drop_last()[j] == s[j]);
            assert(s[j].0@ != s[s.len() - 1].0@);
        }
        assert(!pairs_map(s.drop_last()).contains_key(s.last().0@));
    }
}

/// Appending a row with a fresh name extends the map by that entry.
proof fn lemma_pairs_map_push(s: Seq<(String, String)>, p: (String, String))
    ensures
        pairs_map(s.push(p)) == pairs_map(s).insert(p.0@, p.1@),
{
    assert(s.push(p).drop_last() =~= s);
    assert(s.push(p).last() == p);
}

/// Overwriting the row that bears a name updates the map at that name.
proof fn lemma_pairs_map_update(s: Seq<(String, String)>, j: int, p: (String, String))
    requires
        distinct_keys(s),
        0 <= j < s.len(),
        s[j].0@ == p.0@,
    ensures
        distinct_keys(s.update(j, p)),
        pairs_map(s.update(j, p)) == pairs_map(s).insert(p.0@, p.1@),
    decreases s.len(),
{
    let t = s.update(j, p);
    assert forall|i1: int, i2: int| 0 <= i1 < i2 < t.len() implies (#[trigger] t[i1]).0@ != (
    #[trigger] t[i2]).0@ by {
        assert(t[i1].0@ == s[i1].0@);
        assert(t[i2].0@ == s[i2].0@);
    }
    if j == s.len() - 1 {
        assert(t.drop_last() =~= s.drop_last());
        assert(t.last() == p);
        assert(pairs_map(s).insert(p.0@, p.1@) =~= pairs_map(s.drop_last()).insert(p.0@, p.1@));
    } else {
        lemma_distinct_drop_last(s);
        assert(t.drop_last() =~= s.drop_last().update(j, p));
        assert(s.drop_last()[j] == s[j]);
        lemma_pairs_map_update(s.drop_last(), j, p);
        assert(t.last() == s.last());
        assert(s.last().0@ != p.0@);
        assert(pairs_map(t) == pairs_map(s.drop_last()).insert(p.0@, p.1@).insert(
            s.last().0@,
            s.last().1@,
        ));
        assert(pairs_map(s.drop_last()).insert(p.0@, p.1@).insert(s.last().0@, s.last().1@)
            =~= pairs_map(s.drop_last()).insert(s.last().0@, s.last().1@).insert(p.0@, p.1@));
    }
}

/// The header mapping built from raw response headers: each value decoded
/// for display, a later occurrence of a name overwriting an earlier one.
pub open spec fn response_headers_model(s: Seq<(String, Vec<u8>)>) -> Map<Seq<char>, Seq<char>>
    decreases s.len(),
{
    if s.len() == 0 {
        Map::empty()
    } else {
        response_headers_model(s.drop_last()).insert(
            s.last().0@,
            header_display_of(s.last().1@),
        )
    }
}

/// The body text shown for a response: the decoded text when the read
/// succeeded, the fixed placeholder otherwise.
pub open spec fn body_model(body: Option<String>) -> Seq<char> {
    match body {
        Some(text) => text@,
        None => body_placeholder(),
    }
}

/// What each header shows: the name of any raw header — taken at its last
/// occurrence, since a later occurrence overwrites an earlier one — maps to
/// its value's own text when that value is displayable, and to the fixed
/// placeholder when it is not; no other header is affected.
pub proof fn lemma_header_value_display(s: Seq<(String, Vec<u8>)>, j: int)
    requires
        0 <= j < s.len(),
        forall|k: int| j < k < s.len() ==> (#[trigger] s[k]).0@ != s[j].0@,
    ensures
        response_headers_model(s).contains_key(s[j].0@),
        response_headers_model(s)[s[j].0@] == header_display_of(s[j].1@),
        displayable(s[j].1@) ==> response_headers_model(s)[s[j].0@] == chars_of(s[j].1@),
        !displayable(s[j].1@) ==> response_headers_model(s)[s[j].0@] == header_placeholder(),
    decreases s.len(),
{
    if j < s.len() - 1 {
        assert forall|k: int| j < k < s.drop_last().len() implies (#[trigger] s.drop_last()[k]).0@
            != s.drop_last()[j].0@ by {
            assert(s.drop_last()[k] == s[k]);
            assert(s.drop_last()[j] == s[j]);
        }
        assert(s.drop_last()[j] == s[j]);
        lemma_header_value_display(s.drop_last(), j);
        assert(s.last().0@ != s[j].0@);
    }
}

/// One decoded HTTP response: header rows as display text, and the body
/// text. At most one row per header name; the row order carries no meaning.
pub struct ResponseRecord {
    headers: Vec<(String, String)>,
    body: String,
}

impl ResponseRecord {
    /// The header rows, in insertion order.
    pub closed spec fn headers_seq(&self) -> Seq<(String, String)> {
        self.headers@
    }

    /// Well-formed: no header name occurs twice.
    pub open spec fn wf(&self) -> bool {
        distinct_keys(self.headers_seq())
    }

    /// The header mapping this record denotes.
    pub open spec fn headers_map(&self) -> Map<Seq<char>, Seq<char>> {
        pairs_map(self.headers_seq())
    }

    /// The body text.
    pub closed spec fn body_view(&self) -> Seq<char> {
        self.body@
    }

    /// The empty record: no headers, empty body.
    pub fn new() -> (r: Self)
        ensures
            r.wf(),
            r.headers_map() == Map::<Seq<char>, Seq<char>>::empty(),
            r.headers_seq().len() == 0,
            r.body_view() == Seq::<char>::empty(),
    {
        ResponseRecord { headers: Vec::new(), body: String::new() }
    }

    fn find_header(&self, name: &String) -> (r: Option<usize>)
        ensures
            match r {
                Some(i) => i < self.headers_seq().len() && self.headers_seq()[i as int].0@
                    == name@,
                None => forall|j: int|
                    0 <= j < self.headers_seq().len() ==> (#[trigger] self.headers_seq()[j]).0@
                        != name@,
            },
    {
        let mut i: usize = 0;
        while i < self.headers.len()
            invariant
                i <= self.headers@.len(),
                forall|j: int| 0 <= j < i ==> (#[trigger] self.headers@[j]).0@ != name@,
            decreases self.headers@.len() - i,
        {
            if self.headers[i].0 == *name {
                return Some(i);
            }
            i += 1;
        }
        None
    }

    /// Record a header row: a row whose name is already present is
    /// overwritten, so names stay unique.
    pub fn set_header(&mut self, name: String, value: String)
        requires
            old(self).wf(),
        ensures
            final(self).wf(),
            final(self).headers_map() == old(self).headers_map().insert(name@, value@),
            final(self).body_view() == old(self).body_view(),
    {
        match self.find_header(&name) {
            Some(i) => {
                proof {
                    lemma_pairs_map_update(self.headers@, i as int, (name, value));
                }
                self.headers.set(i, (name, value));
            },
            None => {
                proof {
                    lemma_pairs_map_push(self.headers@, (name, value));
                }
                self.headers.push((name, value));
            },
        }
    }

    /// The value recorded under a header name, if any.
    pub fn get(&self, name: &String) -> (r: Option<&String>)
        requires
            self.wf(),
        ensures
            match r {
                Some(v) => self.headers_map().contains_key(name@) && v@
                    == self.headers_map()[name@],
                None => !self.headers_map().contains_key(name@),
            },
    {
        proof {
            lemma_pairs_map_domain(self.headers@, name@);
        }
        match self.find_header(name) {
            Some(i) => {
                proof {
                    lemma_pairs_map_index(self.headers@, i as int);
                }
                Some(&self.headers[i].1)
            },
            None => None,
        }
    }

    /// How many header rows the record holds: one per recorded name.
    pub fn header_count(&self) -> (n: usize)
        requires
            self.wf(),
        ensures
            n == self.headers_seq().len(),
            n == self.headers_map().dom().len(),
    {
        proof {
            lemma_pairs_map_dom_len(self.headers@);
        }
        self.headers.len()
    }

    /// One header row, for rendering the table.
    pub fn header_row(&self, i: usize) -> (r: (&String, &String))
        requires
            i < self.headers_seq().len(),
        ensures
            r.0@ == self.headers_seq()[i as int].0@,
            r.1@ == self.headers_seq()[i as int].1@,
    {
        (&self.headers[i].0, &self.headers[i].1)
    }

    /// Build the record for one completed response: every header value is
    /// decoded for display, with the fixed placeholder standing in for a
    /// value that is not displayable; a body that could not be read as text
    /// becomes the fixed body placeholder.
    pub fn from_response(headers: &Vec<(String, Vec<u8>)>, body: Option<String>) -> (r: Self)
        ensures
            r.wf(),
            r.headers_map() == response_headers_model(headers@),
            r.body_view() == body_model(body),
    {
        let mut record = ResponseRecord::new();
        let body_text = match body {
            Some(text) => text,
            None => String::from_str("nothing in body"),
        };
        record.body = body_text;
        let mut i: usize = 0;
        while i < headers.len()
            invariant
                i <= headers@.len(),
                record.wf(),
                record.headers_map() == response_headers_model(headers@.take(i as int)),
                record.body_view() == body_model(body),
            decreases headers@.len() - i,
        {
            let name = headers[i].0.clone();
            let value = header_display(&headers[i].1);
            record.set_header(name, value);
            proof {
                assert(headers@.take(i + 1 as int).drop_last() =~= headers@.take(i as int));
                assert(headers@.take(i + 1 as int).last() == headers@[i as int]);
            }
            i += 1;
        }
        proof {
            assert(headers@.take(headers@.len() as int) =~= headers@);
        }
        record
    }

    /// The body text.
    pub fn body(&self) -> (r: &String)
        ensures
            r@ == self.body_view(),
    {
        &self.body
    }
}

impl Default for ResponseRecord {
    /// The initial record displayed before any response arrives.
    fn default() -> (r: Self)
        ensures
            r.wf(),
            r.headers_map() == Map::<Seq<char>, Seq<char>>::empty(),
            r.headers_seq().len() == 0,
            r.body_view() == Seq::<char>::empty(),
    {
        ResponseRecord { headers: Vec::new(), body: String::new() }
    }
}

} // verus!
