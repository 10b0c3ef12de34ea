//! Validated identifiers for collections and database objects.

use vstd::prelude::*;
use vstd::utf8::*;

verus! {

/// Name of the keyspace that prefixes every collection database.
pub const DEFAULT_KEYSPACE_NAME: &'static str = "hoover3";

/// Pattern that every database identifier must match.
pub const DATABASE_IDENT_PATTERN: &'static str = "^[a-z_0-9]{1, 48}$";

/// Pattern that every collection identifier must match.
pub const COLLECTION_IDENT_PATTERN: &'static str = "^[a-z_0-9]{1, 32}$";

/// Length in bytes of the UTF-8 encoding of `s`.
pub open spec fn utf8_len(s: Seq<char>) -> nat {
    encode_utf8(s).len()
}

/// A character of the class `[a-z_0-9]`.
pub open spec fn is_ident_char(c: char) -> bool {
    ('a' <= c && c <= 'z') || ('0' <= c && c <= '9') || c == '_'
}

/// Every character of `s` is in the class `[a-z_0-9]`.
pub open spec fn all_ident_chars(s: Seq<char>) -> bool {
    forall|i: int| 0 <= i < s.len() ==> #[trigger] is_ident_char(s[i])
}

/// Whether `s` matches the anchored pattern `^[a-z_0-9]{1, max}$`.
pub open spec fn ident_class_match(s: Seq<char>, max: nat) -> bool {
    1 <= s.len() <= max && all_ident_chars(s)
}

/// An ASCII letter, upper or lower case.
pub open spec fn is_ascii_letter(c: char) -> bool {
    ('a' <= c && c <= 'z') || ('A' <= c && c <= 'Z')
}

/// `s` contains two consecutive underscores.
pub open spec fn has_double_underscore(s: Seq<char>) -> bool {
    exists|i: int| 0 <= i && i + 1 < s.len() && #[trigger] s[i] == '_' && s[i + 1] == '_'
}

/// `s` begins with the reserved word `system`.
pub open spec fn starts_with_system(s: Seq<char>) -> bool {
    &&& s.len() >= 6
    &&& s[0] == 's'
    &&& s[1] == 'y'
    &&& s[2] == 's'
    &&& s[3] == 't'
    &&& s[4] == 'e'
    &&& s[5] == 'm'
}

/// Why a name was refused as an identifier.
#[derive(Debug, Clone, Copy, PartialEq, Eq)]
pub enum IdentifierError {
    /// The name is too short or too long (in bytes).
    BadLength,
    /// The first character is not an ASCII letter.
    BadFirstLetter,
    /// The name starts with `system`.
    ReservedPrefix,
    /// The name does not match the identifier pattern.
    PatternMismatch,
    /// The name holds `__`.
    DoubleUnderscore,
    /// The name holds a character that is neither alphanumeric nor `_`.
    NotAlphanumeric,
}

/// The outcome of validating `s` as a database identifier.
pub open spec fn database_identifier_check(s: Seq<char>) -> Result<(), IdentifierError> {
    if utf8_len(s) > 48 || utf8_len(s) < 3 {
        Err(IdentifierError::BadLength)
    } else if !is_ascii_letter(s[0]) {
        Err(IdentifierError::BadFirstLetter)
    } else if starts_with_system(s) {
        Err(IdentifierError::ReservedPrefix)
    } else if !ident_class_match(s, 48) {
        Err(IdentifierError::PatternMismatch)
    } else {
        Ok(())
    }
}

/// Unicode `Alphabetic` or `Numeric` property of `c`.
pub uninterp spec fn unicode_alphanumeric(c: char) -> bool;

/// The character is alphanumeric or `_`: among ASCII characters the
/// letters, the digits and `_`; beyond ASCII the Unicode alphanumeric ones.
pub open spec fn is_collection_char(c: char) -> bool {
    if (c as u32) < 128 {
        is_ascii_letter(c) || ('0' <= c && c <= '9') || c == '_'
    } else {
        unicode_alphanumeric(c)
    }
}

/// The outcome of validating `s` as a collection identifier.
pub open spec fn collection_id_check(s: Seq<char>) -> Result<(), IdentifierError> {
    if utf8_len(s) < 3 || utf8_len(s) > 32 {
        Err(IdentifierError::BadLength)
    } else if has_double_underscore(s) {
        Err(IdentifierError::DoubleUnderscore)
    } else if exists|i: int| 0 <= i < s.len() && !#[trigger] is_collection_char(s[i]) {
        Err(IdentifierError::NotAlphanumeric)
    } else if !ident_class_match(s, 32) {
        Err(IdentifierError::PatternMismatch)
    } else {
        Ok(())
    }
}

/// Whether the regular expression `pattern` matches somewhere in `haystack`.
pub uninterp spec fn regex_is_match(pattern: Seq<char>, haystack: Seq<char>) -> bool;

/// Compiles `pattern` with `regex::Regex::new` and runs `Regex::is_match` on
/// `haystack`; `None` when the pattern does not compile.
///
/// Claimed of the regex crate: the result is the match of the pattern, and
/// for the two identifier patterns of this library (`^` and `$` anchor at the
/// ends of the haystack, a counted repetition `{1, n}` admits the spaces and
/// means one to `n` repetitions), the pattern compiles and matches exactly
/// the strings of 1 to `n` characters of the class `[a-z_0-9]`.
#[verifier::external_body]
fn regex_matches(pattern: &str, haystack: &str) -> (r: Option<bool>)
    ensures
        r matches Some(b) ==> b == regex_is_match(pattern@, haystack@),
        pattern@ == DATABASE_IDENT_PATTERN@ ==> r == Some(ident_class_match(haystack@, 48)),
        pattern@ == COLLECTION_IDENT_PATTERN@ ==> r == Some(ident_class_match(haystack@, 32)),
{
    match regex::Regex::new(pattern) {
        Ok(re) => Some(re.is_match(haystack)),
        Err(_) => None,
    }
}

/// `char::is_alphanumeric`: true for characters with the Unicode `Alphabetic`
/// or `Numeric` property; among ASCII characters exactly the letters and digits.
#[verifier::external_body]
fn char_is_alphanumeric(c: char) -> (r: bool)
    ensures
        r == unicode_alphanumeric(c),
        (c as u32) < 128 ==> (r == (is_ascii_letter(c) || ('0' <= c && c <= '9'))),
{
    c.is_alphanumeric()
}

/// `str::len`: the length of the string in bytes, that is of its UTF-8
/// encoding (a string held in memory has a length that fits in `usize`).
#[verifier::external_body]
pub(crate) fn str_byte_len(s: &str) -> (r: usize)
    ensures
        r == utf8_len(s@),
{
    s.len()
}

proof fn lemma_utf8_len_empty(s: Seq<char>)
    requires
        utf8_len(s) > 0,
    ensures
        s.len() > 0,
{
    if s.len() == 0 {
        assert(encode_utf8(s) =~= Seq::<u8>::empty());
    }
}

proof fn lemma_ident_chars_ascii(s: Seq<char>)
    requires
        all_ident_chars(s),
    ensures
        utf8_len(s) == s.len(),
        is_ascii_chars(s),
{
    assert(is_ascii_chars(s)) by {
        assert forall|i: int| 0 <= i < s.len() implies '\0' <= #[trigger] s[i] <= '\u{7f}' by {
            assert(is_ident_char(s[i]));
        }
    }
    is_ascii_chars_encode_utf8(s);
}

/// Whether `s` holds `__`.
fn contains_double_underscore(s: &str) -> (r: bool)
    ensures
        r == has_double_underscore(s@),
{
    let len = s.unicode_len();
    if len < 2 {
        return false;
    }
    let mut i: usize = 0;
    while i + 1 < len
        invariant
            len == s@.len(),
            len >= 2,
            i + 1 <= len,
            forall|j: int| 0 <= j < i ==> !(#[trigger] s@[j] == '_' && s@[j + 1] == '_'),
        decreases len - i,
    {
        if s.get_char(i) == '_' && s.get_char(i + 1) == '_' {
            return true;
        }
        i = i + 1;
    }
    false
}

/// Whether `s` starts with `system`.
fn starts_with_system_exec(s: &str) -> (r: bool)
    ensures
        r == starts_with_system(s@),
{
    let len = s.unicode_len();
    if len < 6 {
        return false;
    }
    s.get_char(0) == 's' && s.get_char(1) == 'y' && s.get_char(2) == 's' && s.get_char(3) == 't'
        && s.get_char(4) == 'e' && s.get_char(5) == 'm'
}

/// A name valid for a Scylla keyspace, table or column.
#[derive(Debug, PartialEq, Eq, PartialOrd, Ord, Hash)]
pub struct DatabaseIdentifier(String);

impl Clone for DatabaseIdentifier {
    fn clone(&self) -> (r: Self)
        ensures
            r@ == self@,
            database_identifier_check(r@) is Ok,
    {
        proof {
            use_type_invariant(self);
        }
        DatabaseIdentifier(self.0.clone())
    }
}

impl View for DatabaseIdentifier {
    type V = Seq<char>;

    closed spec fn view(&self) -> Seq<char> {
        self.0@
    }
}

impl DatabaseIdentifier {
    #[verifier::type_invariant]
    closed spec fn inv(self) -> bool {
        database_identifier_check(self.0@) is Ok
    }

    /// Validates `name`: 3 to 48 bytes, an ASCII letter first, not starting
    /// with `system`, and matching `^[a-z_0-9]{1, 48}$`.
    pub fn new(name: &str) -> (r: Result<DatabaseIdentifier, IdentifierError>)
        ensures
            match database_identifier_check(name@) {
                Ok(()) => r matches Ok(id) && id@ == name@,
                Err(e) => r == Err::<DatabaseIdentifier, IdentifierError>(e),
            },
    {
        let byte_len = str_byte_len(name);
        if byte_len > 48 || byte_len < 3 {
            return Err(IdentifierError::BadLength);
        }
        proof {
            lemma_utf8_len_empty(name@);
        }
        let first_letter = name.get_char(0);
        if !(('a' <= first_letter && first_letter <= 'z') || ('A' <= first_letter && first_letter
            <= 'Z')) {
            return Err(IdentifierError::BadFirstLetter);
        }
        if starts_with_system_exec(name) {
            return Err(IdentifierError::ReservedPrefix);
        }
        match regex_matches(name_pattern(), name) {
            Some(true) => {},
            _ => {
                return Err(IdentifierError::PatternMismatch);
            },
        }
        proof {
            lemma_ident_chars_ascii(name@);
        }
        Ok(DatabaseIdentifier(name.to_owned()))
    }

    /// The identifier's text, which passes the identifier check.
    pub fn to_string(&self) -> (r: String)
        ensures
            r@ == self@,
            database_identifier_check(r@) is Ok,
    {
        proof {
            use_type_invariant(self);
        }
        self.0.clone()
    }

    /// The identifier's text, borrowed; it passes the identifier check.
    pub fn as_str(&self) -> (r: &str)
        ensures
            r@ == self@,
            database_identifier_check(r@) is Ok,
    {
        proof {
            use_type_invariant(self);
        }
        self.0.as_str()
    }
}

/// The database name that holds collection `c`: the keyspace name, `__`,
/// then the collection name.
pub open spec fn collection_database_name(c: Seq<char>) -> Seq<char> {
    DEFAULT_KEYSPACE_NAME@ + seq!['_', '_'] + c
}

/// The name of a collection of documents.
#[derive(Debug, PartialEq, Eq, PartialOrd, Ord, Hash)]
pub struct CollectionId(String);

impl View for CollectionId {
    type V = Seq<char>;

    closed spec fn view(&self) -> Seq<char> {
        self.0@
    }
}

impl Clone for CollectionId {
    fn clone(&self) -> (r: Self)
        ensures
            r@ == self@,
            collection_id_check(r@) is Ok,
    {
        proof {
            use_type_invariant(self);
        }
        CollectionId(self.0.clone())
    }
}

proof fn lemma_keyspace_database_name(c: Seq<char>)
    requires
        ident_class_match(c, 32),
    ensures
        database_identifier_check(collection_database_name(c)) is Ok,
        collection_database_name(c).len() == 9 + c.len(),
{
    reveal_strlit("hoover3");
    let d = collection_database_name(c);
    assert(d.len() == 9 + c.len());
    assert(all_ident_chars(d)) by {
        assert forall|i: int| 0 <= i < d.len() implies #[trigger] is_ident_char(d[i]) by {
            if i >= 9 {
                assert(d[i] == c[i - 9]);
                assert(is_ident_char(c[i - 9]));
            }
        }
    }
    lemma_ident_chars_ascii(d);
}

impl CollectionId {
    #[verifier::type_invariant]
    closed spec fn inv(self) -> bool {
        collection_id_check(self.0@) is Ok
    }

    /// Validates `s`: 3 to 32 bytes, no `__`, only alphanumeric characters
    /// and `_`, matching `^[a-z_0-9]{1, 32}$`, and valid as part of its
    /// database name.
    pub fn new(s: &str) -> (r: Result<CollectionId, IdentifierError>)
        ensures
            match collection_id_check(s@) {
                Ok(()) => r matches Ok(id) && id@ == s@,
                Err(e) => r == Err::<CollectionId, IdentifierError>(e),
            },
    {
        let byte_len = str_byte_len(s);
        if byte_len < 3 || byte_len > 32 {
            return Err(IdentifierError::BadLength);
        }
        if contains_double_underscore(s) {
            return Err(IdentifierError::DoubleUnderscore);
        }
        let len = s.unicode_len();
        let mut i: usize = 0;
        while i < len
            invariant
                len == s@.len(),
                i <= len,
                3 <= utf8_len(s@) <= 32,
                !has_double_underscore(s@),
                forall|j: int| 0 <= j < i ==> #[trigger] is_collection_char(s@[j]),
            decreases len - i,
        {
            let c = s.get_char(i);
            if !(char_is_alphanumeric(c) || c == '_') {
                assert(!is_collection_char(s@[i as int]));
                return Err(IdentifierError::NotAlphanumeric);
            }
            i = i + 1;
        }
        match regex_matches(collection_pattern(), s) {
            Some(true) => {},
            _ => {
                return Err(IdentifierError::PatternMismatch);
            },
        }
        proof {
            lemma_ident_chars_ascii(s@);
        }
        let c = CollectionId(s.to_owned());
        match c.database_name() {
            Ok(_) => Ok(c),
            Err(e) => Err(e),
        }
    }

    /// The identifier of the database that holds this collection,
    /// `hoover3__<name>`; always valid.
    pub fn database_name(&self) -> (r: Result<DatabaseIdentifier, IdentifierError>)
        ensures
            r matches Ok(d) && d@ == collection_database_name(self@),
    {
        proof {
            use_type_invariant(self);
            lemma_keyspace_database_name(self.0@);
        }
        let name = DEFAULT_KEYSPACE_NAME.to_owned();
        let name = name.concat("__");
        let name = name.concat(self.0.as_str());
        proof {
            reveal_strlit("__");
            assert(name@ =~= collection_database_name(self.0@));
        }
        DatabaseIdentifier::new(name.as_str())
    }

    /// The collection's name.
    pub fn to_string(&self) -> (r: String)
        ensures
            r@ == self@,
            collection_id_check(r@) is Ok,
    {
        proof {
            use_type_invariant(self);
        }
        self.0.clone()
    }

    /// The collection's name, borrowed; it passes the collection check.
    pub fn as_str(&self) -> (r: &str)
        ensures
            r@ == self@,
            collection_id_check(r@) is Ok,
    {
        proof {
            use_type_invariant(self);
        }
        self.0.as_str()
    }
}

fn collection_pattern() -> (r: &'static str)
    ensures
        r@ == COLLECTION_IDENT_PATTERN@,
{
    COLLECTION_IDENT_PATTERN
}

fn name_pattern() -> (r: &'static str)
    ensures
        r@ == DATABASE_IDENT_PATTERN@,
{
    DATABASE_IDENT_PATTERN
}

} // verus!
