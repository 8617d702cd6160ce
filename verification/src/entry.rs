use vstd::prelude::*;
use vstd::string::*;
use vstd::utf8::encode_utf8;
use crate::error::PasspromptError;
use crate::text::lemma_encoded_len;
use crate::trusted::{base64_decode, base64_decoded, base64_encode, base64_encoded, bcrypt, bcrypt_digest, random_bytes};
use crate::util::byte_vec_to_array;

verus! {

/// The cost handed to the digest function: two to this power rounds of key
/// setup.
pub const WORK_FACTOR: u32 = 12;

/// The longest password, in bytes, that the digest function accepts.
pub const MAX_PASSWORD_BYTES: usize = 72;

/// The number of bytes in a salt.
pub const SALT_BYTES: usize = 16;

/// The number of bytes in a hash.
pub const HASH_BYTES: usize = 24;

/// Sixteen bytes that make the digests of equal passwords differ.
#[derive(Clone, Copy, Debug)]
pub struct Salt([u8; 16]);

/// The twenty-four bytes of a password's digest.
#[derive(Clone, Copy, Debug)]
pub struct Hash([u8; 24]);

/// What a text stands for where exactly `len` bytes are wanted: the bytes it
/// decodes to, if there are that many.
pub open spec fn decoded_exactly(text: Seq<char>, len: nat) -> Option<Seq<u8>> {
    match base64_decoded(text) {
        Some(bytes) => if bytes.len() == len {
            Some(bytes)
        } else {
            None
        },
        None => None,
    }
}

/// The UTF-8 bytes of a password, as they are digested.
pub open spec fn password_bytes(password: Seq<char>) -> Seq<u8> {
    encode_utf8(password)
}

/// Whether a password can be digested: it is not empty and has at most
/// seventy-two bytes.
pub open spec fn digestible(password: Seq<char>) -> bool {
    0 < password_bytes(password).len() <= MAX_PASSWORD_BYTES
}

/// Why a password that cannot be digested is refused: it is empty, or it
/// is too long, by so many bytes.
pub open spec fn refusal(password: Seq<char>) -> PasspromptError
    recommends
        !digestible(password),
{
    if password.len() == 0 {
        PasspromptError::EmptyPassword
    } else {
        PasspromptError::PasswordTooLong {
            limit: MAX_PASSWORD_BYTES,
            actual: password_bytes(password).len() as usize,
        }
    }
}

/// The digest of a password under a salt, at the library's work factor.
pub open spec fn digest_of(salt: Seq<u8>, password: Seq<char>) -> Seq<u8> {
    bcrypt_digest(WORK_FACTOR, salt, password_bytes(password))
}

impl View for Salt {
    type V = Seq<u8>;

    closed spec fn view(&self) -> Seq<u8> {
        self.0@
    }
}

impl View for Hash {
    type V = Seq<u8>;

    closed spec fn view(&self) -> Seq<u8> {
        self.0@
    }
}

impl Salt {
    /// A salt of the given bytes.
    pub fn from_bytes(bytes: [u8; 16]) -> (r: Salt)
        ensures
            r@ == bytes@,
    {
        Salt(bytes)
    }

    /// The bytes of the salt.
    pub fn as_bytes(&self) -> (r: &[u8; 16])
        ensures
            r@ == self@,
            self@.len() == SALT_BYTES,
    {
        &self.0
    }

    /// Reads a salt from its base64 text.
    ///
    /// Succeeds exactly on a text that decodes to sixteen bytes, with those
    /// bytes.
    pub fn from_text(text: &str) -> (r: Result<Salt, PasspromptError>)
        ensures
            match decoded_exactly(text@, SALT_BYTES as nat) {
                Some(bytes) => r is Ok && r->Ok_0@ == bytes,
                None => r == Err::<Salt, PasspromptError>(PasspromptError::InvalidSaltEncoding),
            },
    {
        match base64_decode(text) {
            Ok(bytes) => match byte_vec_to_array::<16>(bytes) {
                Ok(array) => Ok(Salt(array)),
                Err(_) => Err(PasspromptError::InvalidSaltEncoding),
            },
            Err(_) => Err(PasspromptError::InvalidSaltEncoding),
        }
    }

    /// Writes the salt as base64 text, from which `from_text` reads it back.
    pub fn to_text(&self) -> (r: String)
        ensures
            r@ == base64_encoded(self@),
            decoded_exactly(r@, SALT_BYTES as nat) == Some(self@),
    {
        base64_encode(self.0.as_slice())
    }
}

impl Hash {
    /// A hash of the given bytes.
    pub fn from_bytes(bytes: [u8; 24]) -> (r: Hash)
        ensures
            r@ == bytes@,
    {
        Hash(bytes)
    }

    /// The bytes of the hash.
    pub fn as_bytes(&self) -> (r: &[u8; 24])
        ensures
            r@ == self@,
            self@.len() == HASH_BYTES,
    {
        &self.0
    }

    /// Reads a hash from its base64 text.
    ///
    /// Succeeds exactly on a text that decodes to twenty-four bytes, with
    /// those bytes.
    pub fn from_text(text: &str) -> (r: Result<Hash, PasspromptError>)
        ensures
            match decoded_exactly(text@, HASH_BYTES as nat) {
                Some(bytes) => r is Ok && r->Ok_0@ == bytes,
                None => r == Err::<Hash, PasspromptError>(PasspromptError::InvalidHashEncoding),
            },
    {
        match base64_decode(text) {
            Ok(bytes) => match byte_vec_to_array::<24>(bytes) {
                Ok(array) => Ok(Hash(array)),
                Err(_) => Err(PasspromptError::InvalidHashEncoding),
            },
            Err(_) => Err(PasspromptError::InvalidHashEncoding),
        }
    }

    /// Writes the hash as base64 text, from which `from_text` reads it back.
    pub fn to_text(&self) -> (r: String)
        ensures
            r@ == base64_encoded(self@),
            decoded_exactly(r@, HASH_BYTES as nat) == Some(self@),
    {
        base64_encode(self.0.as_slice())
    }

    /// Compares two hashes over their full length, without stopping at the
    /// first difference.
    pub fn same_as(&self, other: &Hash) -> (r: bool)
        ensures
            r == (self@ == other@),
    {
        let mut difference: u8 = 0;
        let mut i: usize = 0;
        while i < 24
            invariant
                i <= 24,
                difference == 0 <==> (forall|j: int| 0 <= j < i ==> self.0@[j] == other.0@[j]),
            decreases 24 - i,
        {
            let ghost before = difference;
            let x = self.0[i];
            let y = other.0[i];
            difference = difference | (x ^ y);
            assert(difference == 0 <==> before == 0 && x == y) by (bit_vector)
                requires
                    difference == before | (x ^ y),
            ;
            i += 1;
        }
        assert(difference == 0 <==> self.0@ =~= other.0@);
        difference == 0
    }
}

/// A stored credential: a salt, and the digest of the password under it.
#[derive(Clone, Copy, Debug)]
pub struct PasswordEntry {
    pub salt: Salt,
    pub hash: Hash,
}

impl PasswordEntry {
    /// Whether `password` is the one this entry was made from, as far as the
    /// digest tells: it can be digested, and its digest under the entry's
    /// salt is the entry's hash.
    pub open spec fn accepts(self, password: Seq<char>) -> bool {
        digestible(password) && digest_of(self.salt@, password) == self.hash@
    }

    /// Digests a password under a salt.
    ///
    /// An empty password and one of more than seventy-two bytes are refused,
    /// each with its own error; every other password gives its digest.
    pub fn hash(salt: &Salt, password: String) -> (r: Result<Hash, PasspromptError>)
        ensures
            digestible(password@) ==> r is Ok && r->Ok_0@ == digest_of(salt@, password@),
            !digestible(password@) ==> r == Err::<Hash, PasspromptError>(refusal(password@)),
            password@.len() == 0 ==> r == Err::<Hash, PasspromptError>(
                PasspromptError::EmptyPassword,
            ),
    {
        proof {
            lemma_encoded_len(password@);
        }
        let bytes = password.as_str().as_bytes();
        if bytes.len() == 0 {
            return Err(PasspromptError::EmptyPassword);
        }
        if bytes.len() > MAX_PASSWORD_BYTES {
            return Err(
                PasspromptError::PasswordTooLong { limit: MAX_PASSWORD_BYTES, actual: bytes.len() },
            );
        }
        Ok(Hash(bcrypt(WORK_FACTOR, &salt.0, bytes)))
    }

    /// Makes an entry for a password under the salt that `salt` is the base64
    /// text of.
    ///
    /// A text that is no salt is refused first, then a password that cannot
    /// be digested; otherwise the entry holds the salt and the password's
    /// digest under it.
    pub fn create(salt: String, password: String) -> (r: Result<PasswordEntry, PasspromptError>)
        ensures
            match decoded_exactly(salt@, SALT_BYTES as nat) {
                None => r == Err::<PasswordEntry, PasspromptError>(
                    PasspromptError::InvalidSaltEncoding,
                ),
                Some(bytes) => {
                    &&& digestible(password@) ==> r is Ok && r->Ok_0.salt@ == bytes && r->Ok_0.hash@
                        == digest_of(bytes, password@)
                    &&& !digestible(password@) ==> r == Err::<PasswordEntry, PasspromptError>(
                        refusal(password@),
                    )
                    &&& password@.len() == 0 ==> r == Err::<PasswordEntry, PasspromptError>(
                        PasspromptError::EmptyPassword,
                    )
                },
            },
    {
        proof {
            lemma_digestible(password@);
        }
        let salt = match Salt::from_text(salt.as_str()) {
            Ok(salt) => salt,
            Err(e) => {
                return Err(e);
            },
        };
        match PasswordEntry::hash(&salt, password) {
            Ok(hash) => Ok(PasswordEntry { salt, hash }),
            Err(e) => Err(e),
        }
    }

    /// Makes an entry for a password under a salt drawn at random.
    ///
    /// Whatever salt is drawn, a password that cannot be digested is refused,
    /// and every other password gives an entry that holds its digest under
    /// the entry's salt.
    pub fn generate(password: String) -> (r: Result<PasswordEntry, PasspromptError>)
        ensures
            digestible(password@) ==> r is Ok && r->Ok_0.hash@ == digest_of(
                r->Ok_0.salt@,
                password@,
            ),
            !digestible(password@) ==> r == Err::<PasswordEntry, PasspromptError>(
                refusal(password@),
            ),
            password@.len() == 0 ==> r == Err::<PasswordEntry, PasspromptError>(
                PasspromptError::EmptyPassword,
            ),
    {
        proof {
            lemma_digestible(password@);
        }
        let salt = Salt::from_bytes(random_bytes::<16>());
        match PasswordEntry::hash(&salt, password) {
            Ok(hash) => Ok(PasswordEntry { salt, hash }),
            Err(e) => Err(e),
        }
    }

    /// Whether `password` is accepted by this entry. A password that cannot
    /// be digested is not.
    pub fn matches(&self, password: String) -> (r: bool)
        ensures
            r == self.accepts(password@),
    {
        match PasswordEntry::hash(&self.salt, password) {
            Ok(h) => self.hash.same_as(&h),
            Err(_) => false,
        }
    }
}

/// A password of at least one character and of no more than seventy-two
/// bytes can be digested, and an empty one cannot.
pub proof fn lemma_digestible(password: Seq<char>)
    ensures
        password.len() >= 1 && password_bytes(password).len() <= MAX_PASSWORD_BYTES ==> digestible(
            password,
        ),
        password.len() == 0 ==> !digestible(password) && refusal(password)
            == PasspromptError::EmptyPassword,
{
    lemma_encoded_len(password);
}

/// An entry that was made from a password under some salt accepts that
/// password: what `create` gives, `matches` answers with yes. The password
/// has at least one character; one of more than seventy-two bytes is left
/// out, because no entry is made from it.
pub proof fn lemma_create_then_matches(password: Seq<char>, entry: PasswordEntry)
    requires
        password.len() >= 1,
        password_bytes(password).len() <= MAX_PASSWORD_BYTES,
        entry.hash@ == digest_of(entry.salt@, password),
    ensures
        entry.accepts(password),
{
    lemma_digestible(password);
}

/// An entry that was made from one password accepts another exactly when the
/// two have the same digest under the entry's salt.
pub proof fn lemma_create_then_matches_another(
    entry: PasswordEntry,
    first: Seq<char>,
    second: Seq<char>,
)
    requires
        digestible(first),
        digestible(second),
        entry.hash@ == digest_of(entry.salt@, first),
    ensures
        entry.accepts(second) <==> digest_of(entry.salt@, second) == digest_of(entry.salt@, first),
{
}

} // verus!
