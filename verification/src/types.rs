use vstd::prelude::*;

verus! {

/// The closed set of error kinds that the library reports.
#[derive(Debug, PartialEq)]
pub enum AppError {
    FailedToParseConfig(String),
    FileNotFound(String),
    ValidationError(String),
    Exception(String),
}

/// The mathematical shape of an error: its kind and message text.
pub ghost enum ErrorModel {
    FailedToParseConfig(Seq<char>),
    FileNotFound(Seq<char>),
    ValidationError(Seq<char>),
    Exception(Seq<char>),
}

impl View for AppError {
    type V = ErrorModel;

    open spec fn view(&self) -> ErrorModel {
        match self {
            AppError::FailedToParseConfig(s) => ErrorModel::FailedToParseConfig(s@),
            AppError::FileNotFound(s) => ErrorModel::FileNotFound(s@),
            AppError::ValidationError(s) => ErrorModel::ValidationError(s@),
            AppError::Exception(s) => ErrorModel::Exception(s@),
        }
    }
}

impl AppError {
    /// Human-readable rendering of the error, mirroring its display form.
    pub fn message(&self) -> String {
        match self {
            AppError::FailedToParseConfig(s) => {
                let mut r = String::from_str("Bad file format `");
                r.append(s.as_str());
                r.append("`");
                r
            }
            AppError::FileNotFound(s) => {
                let mut r = String::from_str("File does not exist: `");
                r.append(s.as_str());
                r.append("`");
                r
            }
            AppError::ValidationError(s) => {
                let mut r = String::from_str("Validation error: `");
                r.append(s.as_str());
                r.append("`");
                r
            }
            AppError::Exception(s) => {
                let mut r = String::from_str("Runtime error: `");
                r.append(s.as_str());
                r.append("`");
                r
            }
        }
    }
}

#[derive(Clone, Copy, Debug, PartialEq, Eq, Structural)]
pub enum HttpMethod {
    GET,
    POST,
    PATCH,
    PUT,
    DELETE,
}

#[derive(Clone, Copy, Debug, PartialEq, Eq, Structural)]
pub enum JobStatus {
    Pending,
    Running,
    Failed,
    Finished,
}

#[derive(Clone, Copy, Debug, PartialEq, Eq, Structural)]
pub enum VariableGenerator {
    UUID,
}

#[derive(Debug, PartialEq)]
pub enum PathVariableValue {
    Generator(VariableGenerator),
    Int(usize),
    String(String),
}

#[derive(Debug, PartialEq)]
pub enum PathVariable {
    SingleValue(PathVariableValue),
    MultipleValues(Vec<PathVariableValue>),
}

/// A header value is either free text or an unsigned 64-bit integer.
#[derive(Debug, PartialEq)]
pub enum HeaderValue {
    String(String),
    U64(u64),
}


impl Clone for AppError {
    /// A clone carries the same kind and message.
    fn clone(&self) -> (res: Self)
        ensures
            res == *self,
    {
        match self {
            AppError::FailedToParseConfig(s) => AppError::FailedToParseConfig(s.clone()),
            AppError::FileNotFound(s) => AppError::FileNotFound(s.clone()),
            AppError::ValidationError(s) => AppError::ValidationError(s.clone()),
            AppError::Exception(s) => AppError::Exception(s.clone()),
        }
    }
}

impl Clone for HeaderValue {
    /// A clone carries the same value.
    fn clone(&self) -> (res: Self)
        ensures
            res == *self,
    {
        match self {
            HeaderValue::String(s) => HeaderValue::String(s.clone()),
            HeaderValue::U64(n) => HeaderValue::U64(*n),
        }
    }
}

impl Clone for PathVariableValue {
    /// A clone carries the same value.
    fn clone(&self) -> (res: Self)
        ensures
            res == *self,
    {
        match self {
            PathVariableValue::Generator(g) => PathVariableValue::Generator(*g),
            PathVariableValue::Int(n) => PathVariableValue::Int(*n),
            PathVariableValue::String(s) => PathVariableValue::String(s.clone()),
        }
    }
}

impl Clone for PathVariable {
    /// A clone holds the same values in the same order.
    fn clone(&self) -> (res: Self)
        ensures
            res@ == self@,
    {
        match self {
            PathVariable::SingleValue(v) => PathVariable::SingleValue(v.clone()),
            PathVariable::MultipleValues(vs) => {
                let mut out: Vec<PathVariableValue> = Vec::new();
                let n = vs.len();
                let mut i: usize = 0;
                while i < n
                    invariant
                        n == vs@.len(),
                        0 <= i <= n,
                        out@.len() == i,
                        forall|j: int| 0 <= j < i ==> (#[trigger] out@[j]) == vs@[j],
                    decreases n - i,
                {
                    out.push(vs[i].clone());
                    i = i + 1;
                }
                let r = PathVariable::MultipleValues(out);
                proof {
                    assert(r@->Multiple_0 =~= self@->Multiple_0);
                }
                r
            }
        }
    }
}

/// First index whose key equals `key`, or the length when no entry matches.
pub open spec fn key_index<V>(s: Seq<(String, V)>, key: Seq<char>) -> int
    decreases s.len(),
{
    if s.len() == 0 {
        0
    } else if s[0].0@ == key {
        0
    } else {
        1 + key_index(s.skip(1), key)
    }
}

/// The value of the first entry whose key equals `key`, if any.
pub open spec fn slookup<V>(s: Seq<(String, V)>, key: Seq<char>) -> Option<V>
    decreases s.len(),
{
    if s.len() == 0 {
        None
    } else if s[0].0@ == key {
        Some(s[0].1)
    } else {
        slookup(s.skip(1), key)
    }
}

/// What inserting a pair leaves behind: the first matching entry's value is
/// replaced, or the pair is appended when the key is new.
pub open spec fn upsert<V>(s: Seq<(String, V)>, k: String, v: V) -> Seq<(String, V)> {
    if slookup(s, k@) is Some {
        s.update(key_index(s, k@), (s[key_index(s, k@)].0, v))
    } else {
        s.push((k, v))
    }
}

pub proof fn lemma_key_index<V>(s: Seq<(String, V)>, key: Seq<char>)
    ensures
        0 <= key_index(s, key) <= s.len(),
        slookup(s, key) is Some <==> key_index(s, key) < s.len(),
        key_index(s, key) < s.len() ==> s[key_index(s, key)].0@ == key
            && slookup(s, key) == Some(s[key_index(s, key)].1),
        forall|i: int| 0 <= i < key_index(s, key) ==> s[i].0@ != key,
    decreases s.len(),
{
    if s.len() == 0 {
    } else if s[0].0@ == key {
    } else {
        lemma_key_index(s.skip(1), key);
        assert forall|i: int| 0 <= i < key_index(s, key) implies s[i].0@ != key by {
            if i > 0 {
                assert(s.skip(1)[i - 1] == s[i]);
            }
        }
    }
}

/// Looking a key up after an upsert: the inserted key maps to the new value,
/// every other key is untouched.
pub proof fn lemma_upsert<V>(s: Seq<(String, V)>, k: String, v: V)
    ensures
        slookup(upsert(s, k, v), k@) == Some(v),
        forall|key2: Seq<char>| key2 != k@ ==> slookup(upsert(s, k, v), key2) == slookup(s, key2),
    decreases s.len(),
{
    lemma_key_index(s, k@);
    let u = upsert(s, k, v);
    if s.len() == 0 {
        assert(u =~= seq![(k, v)]);
        assert(slookup(u, k@) == Some(v));
        assert forall|key2: Seq<char>| key2 != k@ implies slookup(u, key2) == slookup(s, key2) by {
            assert(u.skip(1) =~= s);
        }
    } else if s[0].0@ == k@ {
        assert(u =~= s.update(0, (s[0].0, v)));
        assert(slookup(u, k@) == Some(v));
        assert forall|key2: Seq<char>| key2 != k@ implies slookup(u, key2) == slookup(s, key2) by {
            assert(u.skip(1) =~= s.skip(1));
        }
    } else {
        lemma_upsert(s.skip(1), k, v);
        assert(u.skip(1) =~= upsert(s.skip(1), k, v));
        assert(u[0] == s[0]);
        assert(u.len() > 0);
        assert(slookup(u, k@) == slookup(u.skip(1), k@));
        assert forall|key2: Seq<char>| key2 != k@ implies slookup(u, key2) == slookup(s, key2) by {
            if s[0].0@ == key2 {
                assert(slookup(u, key2) == Some(u[0].1));
                assert(slookup(s, key2) == Some(s[0].1));
            } else {
                assert(slookup(u, key2) == slookup(u.skip(1), key2));
                assert(slookup(s, key2) == slookup(s.skip(1), key2));
            }
        }
    }
}

/// An ordered list of key/value pairs with string keys; the first entry of a
/// key decides its value, and `insert` keeps keys unique.
#[derive(Debug, PartialEq)]
pub struct StringMap<V> {
    pub entries: Vec<(String, V)>,
}

impl<V> View for StringMap<V> {
    type V = Seq<(String, V)>;

    open spec fn view(&self) -> Seq<(String, V)> {
        self.entries@
    }
}

impl<V> StringMap<V> {
    /// The value stored under `key`, if any.
    pub open spec fn spec_get(&self, key: Seq<char>) -> Option<V> {
        slookup(self@, key)
    }

    pub open spec fn contains_key(&self, key: Seq<char>) -> bool {
        self.spec_get(key) is Some
    }

    pub fn new() -> (r: Self)
        ensures
            r@ == Seq::<(String, V)>::empty(),
    {
        StringMap { entries: Vec::new() }
    }

    pub fn len(&self) -> (r: usize)
        ensures
            r == self@.len(),
    {
        self.entries.len()
    }

    /// Replaces the value under `k` or appends a new entry.
    pub fn insert(&mut self, k: String, v: V)
        ensures
            final(self)@ == upsert(old(self)@, k, v),
            final(self).spec_get(k@) == Some(v),
            forall|key2: Seq<char>|
                key2 != k@ ==> final(self).spec_get(key2) == old(self).spec_get(key2),
    {
        proof {
            lemma_key_index(self@, k@);
            lemma_upsert(self@, k, v);
        }
        let ghost orig = self@;
        let n = self.entries.len();
        let mut i: usize = 0;
        while i < n
            invariant
                n == orig.len(),
                self@ == orig,
                orig == old(self)@,
                0 <= i <= n,
                forall|j: int| 0 <= j < i ==> orig[j].0@ != k@,
            decreases n - i,
        {
            if string_eq(&self.entries[i].0, &k) {
                proof {
                    lemma_key_index(orig, k@);
                    assert(key_index(orig, k@) == i);
                }
                let old_pair = self.entries.remove(i);
                self.entries.insert(i, (old_pair.0, v));
                proof {
                    assert(self@ =~= upsert(orig, k, v));
                    lemma_upsert(orig, k, v);
                }
                return ;
            }
            i = i + 1;
        }
        proof {
            lemma_key_index(orig, k@);
            assert(slookup(orig, k@) is None);
        }
        self.entries.push((k, v));
    }

    /// The value under `k`, if any.
    pub fn get_value(&self, k: &String) -> (r: Option<&V>)
        ensures
            match r {
                Some(v) => slookup(self@, k@) == Some(*v),
                None => slookup(self@, k@) is None,
            },
    {
        let n = self.entries.len();
        let mut i: usize = 0;
        while i < n
            invariant
                n == self@.len(),
                0 <= i <= n,
                forall|j: int| 0 <= j < i ==> self@[j].0@ != k@,
            decreases n - i,
        {
            if string_eq(&self.entries[i].0, k) {
                proof {
                    lemma_key_index(self@, k@);
                }
                return Some(&self.entries[i].1);
            }
            i = i + 1;
        }
        proof {
            lemma_key_index(self@, k@);
        }
        None
    }

    /// Whether any entry has the given key.
    pub fn has_key(&self, k: &String) -> (r: bool)
        ensures
            r == self.contains_key(k@),
    {
        let n = self.entries.len();
        let mut i: usize = 0;
        while i < n
            invariant
                n == self@.len(),
                0 <= i <= n,
                forall|j: int| 0 <= j < i ==> self@[j].0@ != k@,
            decreases n - i,
        {
            if string_eq(&self.entries[i].0, k) {
                proof {
                    lemma_key_index(self@, k@);
                }
                return true;
            }
            i = i + 1;
        }
        proof {
            lemma_key_index(self@, k@);
        }
        false
    }
}

/// Equality of two strings, as exec code; the result reflects view equality.
pub fn string_eq(a: &String, b: &String) -> (r: bool)
    ensures
        r == (a@ == b@),
{
    *a == *b
}

/// Equality of a string and a literal slice.
pub fn str_eq(a: &String, b: &str) -> (r: bool)
    ensures
        r == (a@ == b@),
{
    let bs = String::from_str(b);
    *a == bs
}

pub type HeadersMap = StringMap<HeaderValue>;

pub type VariablesMap = StringMap<PathVariable>;

pub type PlaceholderToValueMap = StringMap<PathVariableValue>;

} // verus!
