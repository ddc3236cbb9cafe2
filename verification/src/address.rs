//! Account addresses: non-empty ASCII names of at most 96 bytes made of
//! letters, digits, '_', '-' and ':'.

use vstd::prelude::*;
use vstd::string::*;
use vstd::utf8::encode_utf8;
use crate::text::push_char;

verus! {

/// Characters an address may hold.
pub open spec fn address_char_ok(c: char) -> bool {
    ||| ('a' <= c && c <= 'z')
    ||| ('A' <= c && c <= 'Z')
    ||| ('0' <= c && c <= '9')
    ||| c == '_'
    ||| c == '-'
    ||| c == ':'
}

/// Index of the first character that is not allowed (the length if none).
pub open spec fn first_bad_char(s: Seq<char>) -> int
    decreases s.len(),
{
    if s.len() == 0 {
        0
    } else if !address_char_ok(s[0]) {
        0
    } else {
        1 + first_bad_char(s.drop_first())
    }
}

/// The outcome of validating the characters `s` whose UTF-8 form is
/// `nbytes` long: empty, then too long, then the first bad character.
pub open spec fn address_check(s: Seq<char>, nbytes: nat) -> Result<(), AddressError> {
    if s.len() == 0 {
        Err(AddressError::Empty)
    } else if nbytes > 96 {
        Err(AddressError::TooLong)
    } else if first_bad_char(s) < s.len() {
        Err(AddressError::InvalidCharacter(s[first_bad_char(s)]))
    } else {
        Ok(())
    }
}

/// A well-formed address string.
pub open spec fn valid_address(s: Seq<char>) -> bool {
    address_check(s, encode_utf8(s).len()) is Ok
}

pub proof fn lemma_first_bad_char(s: Seq<char>)
    ensures
        0 <= first_bad_char(s) <= s.len(),
        forall|i: int| 0 <= i < first_bad_char(s) ==> address_char_ok(#[trigger] s[i]),
        first_bad_char(s) < s.len() ==> !address_char_ok(s[first_bad_char(s)]),
    decreases s.len(),
{
    if s.len() > 0 && address_char_ok(s[0]) {
        lemma_first_bad_char(s.drop_first());
        assert forall|i: int| 0 <= i < first_bad_char(s) implies address_char_ok(#[trigger] s[i]) by {
            if i > 0 {
                assert(s[i] == s.drop_first()[i - 1]);
            }
        }
    }
}

/// A non-empty string of at most 96 allowed characters is a valid address.
pub proof fn lemma_valid_address(s: Seq<char>)
    requires
        0 < s.len() <= 96,
        forall|i: int| 0 <= i < s.len() ==> address_char_ok(#[trigger] s[i]),
    ensures
        valid_address(s),
{
    lemma_all_chars_ok(s);
    assert(vstd::utf8::is_ascii_chars(s));
    vstd::utf8::is_ascii_chars_encode_utf8(s);
}

proof fn lemma_all_chars_ok(s: Seq<char>)
    requires
        forall|i: int| 0 <= i < s.len() ==> address_char_ok(#[trigger] s[i]),
    ensures
        first_bad_char(s) == s.len(),
    decreases s.len(),
{
    if s.len() > 0 {
        let t = s.drop_first();
        assert forall|i: int| 0 <= i < t.len() implies address_char_ok(#[trigger] t[i]) by {
            assert(t[i] == s[i + 1]);
        }
        assert(address_char_ok(s[0]));
        lemma_all_chars_ok(t);
    }
}

#[derive(Clone, Debug, PartialEq, Eq, Structural)]
pub enum AddressError {
    Empty,
    TooLong,
    InvalidCharacter(char),
}

/// The message of an address error.
pub open spec fn address_error_text(e: AddressError) -> Seq<char> {
    match e {
        AddressError::Empty => "address is empty"@,
        AddressError::TooLong => "address is too long"@,
        AddressError::InvalidCharacter(c) => "address contains invalid character '"@ + seq![c] + "'"@,
    }
}

impl AddressError {
    /// The message of this error.
    pub fn to_string(&self) -> (r: String)
        ensures
            r@ == address_error_text(*self),
    {
        let mut s = String::new();
        match self {
            AddressError::Empty => s.append("address is empty"),
            AddressError::TooLong => s.append("address is too long"),
            AddressError::InvalidCharacter(c) => {
                s.append("address contains invalid character '");
                push_char(&mut s, *c);
                s.append("'");
            },
        }
        assert(s@ =~= address_error_text(*self));
        s
    }
}

/// An account address.
#[derive(Debug, Hash, PartialOrd, Ord)]
pub struct Address(String);

impl View for Address {
    type V = Seq<char>;

    closed spec fn view(&self) -> Seq<char> {
        self.0@
    }
}

impl Address {
    #[verifier::type_invariant]
    spec fn well_formed(self) -> bool {
        valid_address(self.0@)
    }

    pub fn new(value: &str) -> (r: Result<Address, AddressError>)
        ensures
            r matches Ok(a) ==> a@ == value@,
            r.is_ok() == (address_check(value@, encode_utf8(value@).len()) is Ok),
            r matches Err(e) ==> address_check(value@, encode_utf8(value@).len()) == Err::<(), AddressError>(e),
    {
        match validate_address(value) {
            Ok(()) => {
                let s = value.to_owned();
                Ok(Address(s))
            },
            Err(e) => Err(e),
        }
    }

    pub fn as_str(&self) -> (r: &str)
        ensures
            r@ == self@,
    {
        self.0.as_str()
    }

    /// The address as an owned string.
    pub fn to_string(&self) -> (r: String)
        ensures
            r@ == self@,
    {
        self.0.clone()
    }

    /// Every address satisfies [`valid_address`].
    pub fn check_valid(&self)
        ensures
            valid_address(self@),
    {
        proof {
            use_type_invariant(self);
        }
    }
}

impl Clone for Address {
    fn clone(&self) -> (r: Address)
        ensures
            r == *self,
    {
        proof {
            use_type_invariant(self);
        }
        Address(self.0.clone())
    }
}

impl PartialEq for Address {
    fn eq(&self, other: &Address) -> (r: bool) {
        self.0 == other.0
    }
}

impl vstd::std_specs::cmp::PartialEqSpecImpl for Address {
    open spec fn obeys_eq_spec() -> bool {
        true
    }

    open spec fn eq_spec(&self, other: &Address) -> bool {
        self@ == other@
    }
}

impl Eq for Address {
}

impl std::str::FromStr for Address {
    type Err = AddressError;

    fn from_str(value: &str) -> (r: Result<Address, AddressError>)
        ensures
            r matches Ok(a) ==> a@ == value@,
            r is Ok <==> (address_check(value@, encode_utf8(value@).len()) is Ok),
            r matches Err(e) ==> address_check(value@, encode_utf8(value@).len()) == Err::<(), AddressError>(e),
    {
        Address::new(value)
    }
}

fn validate_address(value: &str) -> (r: Result<(), AddressError>)
    ensures
        r == address_check(value@, encode_utf8(value@).len()),
{
    if value.is_empty() {
        return Err(AddressError::Empty);
    }
    if value.as_bytes().len() > 96 {
        return Err(AddressError::TooLong);
    }
    let n = value.unicode_len();
    let mut i: usize = 0;
    proof {
        lemma_first_bad_char(value@);
    }
    while i < n
        invariant
            n == value@.len(),
            n > 0,
            encode_utf8(value@).len() <= 96,
            i <= n,
            forall|j: int| 0 <= j < i ==> address_char_ok(#[trigger] value@[j]),
            0 <= first_bad_char(value@) <= value@.len(),
            forall|j: int| 0 <= j < first_bad_char(value@) ==> address_char_ok(#[trigger] value@[j]),
            first_bad_char(value@) < value@.len() ==> !address_char_ok(value@[first_bad_char(value@)]),
        decreases n - i,
    {
        let ch = value.get_char(i);
        let ok = ('a' <= ch && ch <= 'z') || ('A' <= ch && ch <= 'Z') || ('0' <= ch && ch <= '9')
            || ch == '_' || ch == '-' || ch == ':';
        if !ok {
            assert(first_bad_char(value@) == i);
            return Err(AddressError::InvalidCharacter(ch));
        }
        i = i + 1;
    }
    assert(first_bad_char(value@) == value@.len());
    Ok(())
}

} // verus!
