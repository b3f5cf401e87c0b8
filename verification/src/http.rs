//! Plain-value models of the HTTP wire vocabulary: request methods, protocol
//! versions, status codes, header collections and request targets.
//!
//! Header names and values, paths and query strings are byte strings, as they
//! stand on the wire. Header names are kept in lower case, so lookups are
//! case-insensitive.

use vstd::prelude::*;

verus! {

/// Byte constants used throughout the protocol grammar.
pub const SLASH: u8 = 47;

pub const QMARK: u8 = 63;

pub const COLON: u8 = 58;

pub const STAR: u8 = 42;

pub const PLUS: u8 = 43;

pub const UPPER_A: u8 = 65;

pub const UPPER_Z: u8 = 90;

pub const LOWER_A: u8 = 97;

pub const LOWER_Z: u8 = 122;

pub const DIGIT_0: u8 = 48;

pub const DIGIT_9: u8 = 57;

pub const DASH: u8 = 45;

pub const UNDERSCORE: u8 = 95;


/// The eight standard HTTP request methods.
#[derive(Clone, Copy, Debug, PartialEq, Eq, Structural)]
pub enum Method {
    Get,
    Post,
    Put,
    Delete,
    Head,
    Patch,
    Trace,
    Options,
}

/// An HTTP protocol version.
#[derive(Clone, Copy, Debug, PartialEq, Eq, Structural)]
pub enum Version {
    Http09,
    Http10,
    Http11,
    H2,
    H3,
}

impl Default for Version {
    /// The default protocol version is HTTP/1.1.
    fn default() -> (r: Version)
        ensures
            r == Version::Http11,
    {
        Version::Http11
    }
}

/// An HTTP status code: an integer in the range 100..=599.
#[derive(Clone, Copy, Debug, PartialEq, Eq, Structural)]
pub struct StatusCode {
    code: u16,
}

/// Whether `code` is a representable HTTP status code.
pub open spec fn valid_status(code: u16) -> bool {
    100 <= code <= 599
}

impl StatusCode {
    pub closed spec fn spec_code(self) -> u16 {
        self.code
    }

    /// Every constructed status code lies in the valid range.
    pub open spec fn wf(self) -> bool {
        valid_status(self.spec_code())
    }

    /// Builds a status code, rejecting integers outside 100..=599.
    pub fn from_u16(code: u16) -> (r: Result<StatusCode, HttpError>)
        ensures
            valid_status(code) <==> r is Ok,
            r matches Ok(s) ==> s.spec_code() == code && s.wf(),
            r matches Err(e) ==> e == HttpError::InvalidStatus(code),
    {
        if 100 <= code && code <= 599 {
            Ok(StatusCode { code })
        } else {
            Err(HttpError::InvalidStatus(code))
        }
    }

    pub fn as_u16(&self) -> (r: u16)
        ensures
            r == self.spec_code(),
    {
        self.code
    }
}

impl Default for StatusCode {
    /// The default status code is 200 OK.
    fn default() -> (r: StatusCode)
        ensures
            r.spec_code() == 200,
            r.wf(),
    {
        StatusCode { code: 200 }
    }
}

/// An error raised while assembling a response head.
#[derive(Clone, Debug, PartialEq, Eq)]
pub enum HttpError {
    /// The given integer is not in the status code range.
    InvalidStatus(u16),
    /// The given bytes are not a header field name.
    InvalidHeaderName(Vec<u8>),
    /// The given bytes are not a header field value.
    InvalidHeaderValue(Vec<u8>),
}

/// Compares two byte strings for equality.
pub fn bytes_eq(a: &Vec<u8>, b: &Vec<u8>) -> (r: bool)
    ensures
        r == (a@ == b@),
{
    if a.len() != b.len() {
        return false;
    }
    let mut i: usize = 0;
    while i < a.len()
        invariant
            i <= a.len(),
            a@.len() == b@.len(),
            forall|j: int| 0 <= j < i ==> a@[j] == b@[j],
        decreases a.len() - i,
    {
        if a[i] != b[i] {
            return false;
        }
        i += 1;
    }
    proof {
        assert(a@ =~= b@);
    }
    true
}

/// Compares a byte string with a byte slice for equality.
pub fn bytes_eq_slice(a: &Vec<u8>, b: &[u8]) -> (r: bool)
    ensures
        r == (a@ == b@),
{
    if a.len() != b.len() {
        return false;
    }
    let mut i: usize = 0;
    while i < a.len()
        invariant
            i <= a.len(),
            a@.len() == b@.len(),
            forall|j: int| 0 <= j < i ==> a@[j] == b@[j],
        decreases a.len() - i,
    {
        if a[i] != b[i] {
            return false;
        }
        i += 1;
    }
    proof {
        assert(a@ =~= b@);
    }
    true
}

/// The lower-case image of one byte: ASCII letters are folded, all other
/// bytes are unchanged.
pub open spec fn lower_byte(b: u8) -> u8 {
    if UPPER_A <= b <= UPPER_Z {
        (b + 32) as u8
    } else {
        b
    }
}

/// The lower-case image of a byte string.
pub open spec fn lower_bytes(s: Seq<u8>) -> Seq<u8> {
    Seq::new(s.len(), |i: int| lower_byte(s[i]))
}

/// Folds ASCII upper-case letters of `v` to lower case.
pub fn to_lower_bytes(v: &Vec<u8>) -> (r: Vec<u8>)
    ensures
        r@ == lower_bytes(v@),
{
    let mut r: Vec<u8> = Vec::new();
    let mut i: usize = 0;
    while i < v.len()
        invariant
            i <= v.len(),
            r@.len() == i,
            forall|j: int| 0 <= j < i ==> r@[j] == lower_byte(v@[j]),
        decreases v.len() - i,
    {
        let b = v[i];
        if UPPER_A <= b && b <= UPPER_Z {
            r.push(b + 32);
        } else {
            r.push(b);
        }
        i += 1;
    }
    proof {
        assert(r@ =~= lower_bytes(v@));
    }
    r
}

/// Whether `b` may appear in a header field name: the token characters of
/// the HTTP field-name grammar, with letters in lower case (names are
/// folded before they are validated or stored).
pub open spec fn header_name_byte(b: u8) -> bool {
    ||| b == 33
    ||| 35 <= b <= 39
    ||| b == STAR
    ||| b == PLUS
    ||| b == DASH
    ||| b == 46
    ||| DIGIT_0 <= b <= DIGIT_9
    ||| 94 <= b <= 96
    ||| LOWER_A <= b <= LOWER_Z
    ||| b == 124
    ||| b == 126
}

/// Whether `s` is a well-formed (already lower-cased) header field name.
pub open spec fn valid_header_name(s: Seq<u8>) -> bool {
    s.len() > 0 && forall|i: int| 0 <= i < s.len() ==> header_name_byte(#[trigger] s[i])
}

/// Whether `b` may appear in a header field value: visible bytes, space and
/// horizontal tab.
pub open spec fn header_value_byte(b: u8) -> bool {
    b == 9 || (32 <= b && b != 127)
}

/// Whether `s` is a well-formed header field value.
pub open spec fn valid_header_value(s: Seq<u8>) -> bool {
    forall|i: int| 0 <= i < s.len() ==> header_value_byte(#[trigger] s[i])
}

/// Checks executably that `v` is a well-formed lower-cased header name.
pub fn is_valid_header_name(v: &Vec<u8>) -> (r: bool)
    ensures
        r == valid_header_name(v@),
{
    if v.len() == 0 {
        return false;
    }
    let mut i: usize = 0;
    while i < v.len()
        invariant
            i <= v.len(),
            forall|j: int| 0 <= j < i ==> header_name_byte(#[trigger] v@[j]),
        decreases v.len() - i,
    {
        let b = v[i];
        let ok = b == 33 || (35 <= b && b <= 39) || b == STAR || b == PLUS || b == DASH || b == 46
            || (DIGIT_0 <= b && b <= DIGIT_9) || (94 <= b && b <= 96) || (LOWER_A <= b && b
            <= LOWER_Z) || b == 124 || b == 126;
        if !ok {
            return false;
        }
        i += 1;
    }
    true
}

/// Checks executably that `v` is a well-formed header value.
pub fn is_valid_header_value(v: &Vec<u8>) -> (r: bool)
    ensures
        r == valid_header_value(v@),
{
    let mut i: usize = 0;
    while i < v.len()
        invariant
            i <= v.len(),
            forall|j: int| 0 <= j < i ==> header_value_byte(#[trigger] v@[j]),
        decreases v.len() - i,
    {
        let b = v[i];
        if !(b == 9 || (32 <= b && b != 127)) {
            return false;
        }
        i += 1;
    }
    true
}

/// The first value bound to `name` in `entries`, if any.
pub open spec fn header_lookup(entries: Seq<(Seq<u8>, Seq<u8>)>, name: Seq<u8>) -> Option<Seq<u8>>
    decreases entries.len(),
{
    if entries.len() == 0 {
        None
    } else if entries[0].0 == name {
        Some(entries[0].1)
    } else {
        header_lookup(entries.drop_first(), name)
    }
}

/// Lower-casing a byte string twice is the same as doing it once.
pub proof fn lemma_lower_idempotent(s: Seq<u8>)
    ensures
        lower_bytes(lower_bytes(s)) == lower_bytes(s),
{
    assert(lower_bytes(lower_bytes(s)) =~= lower_bytes(s));
}

/// An ordered multi-collection of header fields. Names are stored lower-cased;
/// lookups fold their argument, so they are case-insensitive.
#[derive(Clone, Debug)]
pub struct HeaderMap {
    entries: Vec<(Vec<u8>, Vec<u8>)>,
}

impl View for HeaderMap {
    type V = Seq<(Seq<u8>, Seq<u8>)>;

    closed spec fn view(&self) -> Seq<(Seq<u8>, Seq<u8>)> {
        self.entries.deep_view()
    }
}

impl Default for HeaderMap {
    /// The default collection holds no field.
    fn default() -> (r: HeaderMap)
        ensures
            r@ == Seq::<(Seq<u8>, Seq<u8>)>::empty(),
            r.wf(),
    {
        HeaderMap::new()
    }
}

impl HeaderMap {
    /// All stored names are lower-cased.
    pub open spec fn wf(self) -> bool {
        forall|i: int| 0 <= i < self@.len() ==> (#[trigger] self@[i]).0 == lower_bytes(self@[i].0)
    }

    pub fn new() -> (r: HeaderMap)
        ensures
            r@ == Seq::<(Seq<u8>, Seq<u8>)>::empty(),
            r.wf(),
    {
        let r = HeaderMap { entries: Vec::new() };
        proof {
            assert(r@ =~~= Seq::<(Seq<u8>, Seq<u8>)>::empty());
        }
        r
    }

    pub fn len(&self) -> (r: usize)
        ensures
            r == self@.len(),
    {
        self.entries.len()
    }

    pub fn is_empty(&self) -> (r: bool)
        ensures
            r == (self@.len() == 0),
    {
        self.entries.len() == 0
    }

    /// Adds a field at the end, keeping earlier fields of the same name.
    /// The name is folded to lower case.
    pub fn append(&mut self, name: Vec<u8>, value: Vec<u8>)
        ensures
            final(self)@ == old(self)@.push((lower_bytes(name@), value@)),
            old(self).wf() ==> final(self).wf(),
    {
        let lname = to_lower_bytes(&name);
        self.entries.push((lname, value));
        proof {
            assert(self@ =~~= old(self)@.push((lower_bytes(name@), value@)));
            if old(self).wf() {
                lemma_lower_idempotent(name@);
                assert forall|i: int| 0 <= i < self@.len() implies (#[trigger] self@[i]).0
                    == lower_bytes(self@[i].0) by {
                    if i < old(self)@.len() {
                        assert(old(self)@[i].0 == lower_bytes(old(self)@[i].0));
                    }
                }
            }
        }
    }

    /// The first value of the field named `name` (case-insensitively), if any.
    pub fn get(&self, name: &Vec<u8>) -> (r: Option<&Vec<u8>>)
        ensures
            r.deep_view() == header_lookup(self@, lower_bytes(name@)),
    {
        let lname = to_lower_bytes(name);
        let mut i: usize = 0;
        proof {
            assert(self@.skip(0int) =~~= self@);
        }
        while i < self.entries.len()
            invariant
                i <= self.entries.len(),
                lname@ == lower_bytes(name@),
                header_lookup(self@, lname@) == header_lookup(self@.skip(i as int), lname@),
            decreases self.entries.len() - i,
        {
            proof {
                assert(self@.skip(i as int).drop_first() =~~= self@.skip(i + 1));
                assert(self@.skip(i as int)[0] == self@[i as int]);
                assert(self@[i as int].0 =~= self.entries@[i as int].0@);
                assert(self@[i as int].1 =~= self.entries@[i as int].1@);
            }
            if bytes_eq(&self.entries[i].0, &lname) {
                proof {
                    assert(self@.skip(i as int)[0] == self@[i as int]);
                    assert(self@[i as int].0 == lname@);
                    assert(self@[i as int].1 == self.entries@[i as int].1@);
                }
                return Some(&self.entries[i].1);
            }
            i += 1;
        }
        proof {
            assert(self@.skip(i as int) =~~= Seq::<(Seq<u8>, Seq<u8>)>::empty());
        }
        None
    }

    /// Whether some field has the given name, case-insensitively.
    pub fn contains(&self, name: &Vec<u8>) -> (r: bool)
        ensures
            r == (header_lookup(self@, lower_bytes(name@)) is Some),
    {
        self.get(name).is_some()
    }

    /// Replaces every field named `name` with the single given field, added
    /// at the end.
    pub fn insert(&mut self, name: Vec<u8>, value: Vec<u8>)
        ensures
            final(self)@ == old(self)@.filter(|e: (Seq<u8>, Seq<u8>)| e.0 != lower_bytes(name@))
                .push((lower_bytes(name@), value@)),
            old(self).wf() ==> final(self).wf(),
    {
        let lname = to_lower_bytes(&name);
        let ghost keep = |e: (Seq<u8>, Seq<u8>)| e.0 != lower_bytes(name@);
        let mut kept: Vec<(Vec<u8>, Vec<u8>)> = Vec::new();
        let mut i: usize = 0;
        proof {
            assert(self@.take(0int) =~~= Seq::<(Seq<u8>, Seq<u8>)>::empty());
            reveal(Seq::filter);
            assert(kept.deep_view() =~~= self@.take(0int).filter(keep));
        }
        while i < self.entries.len()
            invariant
                i <= self.entries.len(),
                lname@ == lower_bytes(name@),
                keep == (|e: (Seq<u8>, Seq<u8>)| e.0 != lower_bytes(name@)),
                kept.deep_view() == self@.take(i as int).filter(keep),
                old(self).wf() ==> forall|k: int|
                    0 <= k < kept.deep_view().len() ==> (#[trigger] kept.deep_view()[k]).0
                        == lower_bytes(kept.deep_view()[k].0),
            decreases self.entries.len() - i,
        {
            proof {
                assert(self@.take(i + 1).drop_last() =~~= self@.take(i as int));
                assert(self@.take(i + 1).last() == self@[i as int]);
                reveal(Seq::filter);
            }
            if !bytes_eq(&self.entries[i].0, &lname) {
                let entry_name = self.entries[i].0.clone();
                let entry_value = self.entries[i].1.clone();
                proof {
                    assert(entry_name@ =~= self.entries@[i as int].0@);
                    assert(entry_value@ =~= self.entries@[i as int].1@);
                    assert((entry_name@, entry_value@) == self@[i as int]);
                }
                kept.push((entry_name, entry_value));
            } else {
                proof {
                    assert(self@[i as int].0 == lower_bytes(name@));
                }
            }
            proof {
                assert(kept.deep_view() =~~= self@.take(i + 1).filter(keep));
            }
            i += 1;
        }
        proof {
            assert(self@.take(i as int) =~~= self@);
        }
        kept.push((lname, value));
        self.entries = kept;
        proof {
            assert(self@ =~~= old(self)@.filter(keep).push((lower_bytes(name@), value@)));
            if old(self).wf() {
                lemma_lower_idempotent(name@);
            }
        }
    }
}

/// A request target: optional scheme and authority, a path, and an optional
/// query string, all as byte strings.
#[derive(Clone, Debug)]
pub struct Uri {
    pub scheme: Option<Vec<u8>>,
    pub authority: Option<Vec<u8>>,
    pub path: Vec<u8>,
    pub query: Option<Vec<u8>>,
}

/// The mathematical value of a [`Uri`].
pub struct UriView {
    pub scheme: Option<Seq<u8>>,
    pub authority: Option<Seq<u8>>,
    pub path: Seq<u8>,
    pub query: Option<Seq<u8>>,
}

impl View for Uri {
    type V = UriView;

    open spec fn view(&self) -> UriView {
        UriView {
            scheme: self.scheme.deep_view(),
            authority: self.authority.deep_view(),
            path: self.path@,
            query: self.query.deep_view(),
        }
    }
}

impl Uri {
    /// Builds a target from a raw path-and-query byte string: everything up
    /// to the first `?` is the path, the remainder after it the query.
    pub fn from_path_and_query(raw: Vec<u8>) -> (r: Uri)
        ensures
            r@.scheme is None,
            r@.authority is None,
            ({
                let s = raw@;
                if exists|i: int| 0 <= i < s.len() && s[i] == QMARK {
                    let i = first_question_mark(s);
                    r@.path == s.take(i) && r@.query == Some(s.skip(i + 1))
                } else {
                    r@.path == s && r@.query is None
                }
            }),
    {
        let mut i: usize = 0;
        while i < raw.len()
            invariant
                i <= raw.len(),
                forall|j: int| 0 <= j < i ==> raw@[j] != QMARK,
            decreases raw.len() - i,
        {
            if raw[i] == QMARK {
                proof {
                    lemma_first_question_mark(raw@, i as int);
                }
                let mut path: Vec<u8> = Vec::new();
                let mut k: usize = 0;
                while k < i
                    invariant
                        k <= i,
                        i < raw.len(),
                        path@ =~= raw@.take(k as int),
                    decreases i - k,
                {
                    path.push(raw[k]);
                    k += 1;
                }
                let mut query: Vec<u8> = Vec::new();
                let mut m: usize = i + 1;
                while m < raw.len()
                    invariant
                        i + 1 <= m <= raw.len(),
                        query@ =~= raw@.subrange(i + 1, m as int),
                    decreases raw.len() - m,
                {
                    query.push(raw[m]);
                    m += 1;
                }
                proof {
                    assert(path@ =~= raw@.take(i as int));
                    assert(query@ =~= raw@.skip(i + 1));
                }
                return Uri { scheme: None, authority: None, path, query: Some(query) };
            }
            i += 1;
        }
        Uri { scheme: None, authority: None, path: raw, query: None }
    }

    pub fn path(&self) -> (r: &Vec<u8>)
        ensures
            r@ == self@.path,
    {
        &self.path
    }

    pub fn query(&self) -> (r: Option<&Vec<u8>>)
        ensures
            r.deep_view() == self@.query,
    {
        match &self.query {
            Some(q) => Some(q),
            None => None,
        }
    }
}

/// The index of the first `?` in `s`; meaningful only when one exists.
pub open spec fn first_question_mark(s: Seq<u8>) -> int {
    choose|i: int| 0 <= i < s.len() && s[i] == QMARK && forall|j: int| 0 <= j < i ==> s[j] != QMARK
}

proof fn lemma_first_question_mark(s: Seq<u8>, i: int)
    requires
        0 <= i < s.len(),
        s[i] == QMARK,
        forall|j: int| 0 <= j < i ==> s[j] != QMARK,
    ensures
        first_question_mark(s) == i,
        exists|k: int| 0 <= k < s.len() && s[k] == QMARK,
{
    assert(0 <= i < s.len() && s[i] == QMARK && forall|j: int| 0 <= j < i ==> s[j] != QMARK);
    let w = first_question_mark(s);
    assert(0 <= w < s.len() && s[w] == QMARK && forall|j: int| 0 <= j < w ==> s[j] != QMARK);
    if w < i {
        assert(s[w] != QMARK);
    }
    if i < w {
        assert(s[i] != QMARK);
    }
}

} // verus!
