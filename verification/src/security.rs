//! Checksum and trust-list validation of downloaded artifacts. The
//! SHA-256 digest itself comes from the `sha2` crate; the hex encoding,
//! the comparisons and the trust list are verified here.

use vstd::prelude::*;

use crate::text::{spec_clean_list, spec_has_string, spec_split, split_str, str_equal, trim_str,
    vec_contains_string};

verus! {

/// What `sha2::Sha256::digest` yields: the SHA-256 digest, a function
/// of the input bytes alone.
pub uninterp spec fn sha256_of(data: Seq<u8>) -> Seq<u8>;

/// Relies on `sha2::Sha256::digest`: the 32-byte SHA-256 digest of the
/// input, determined by the input bytes alone.
#[verifier::external_body]
fn sha256_digest(data: &[u8]) -> (r: Vec<u8>)
    ensures
        r@ == sha256_of(data@),
        r@.len() == 32,
{
    <sha2::Sha256 as sha2::Digest>::digest(data).as_slice().to_vec()
}

/// The lower-case hex character for a value below sixteen.
pub open spec fn spec_hex_char(n: nat) -> char {
    if n == 0 {
        '0'
    } else if n == 1 {
        '1'
    } else if n == 2 {
        '2'
    } else if n == 3 {
        '3'
    } else if n == 4 {
        '4'
    } else if n == 5 {
        '5'
    } else if n == 6 {
        '6'
    } else if n == 7 {
        '7'
    } else if n == 8 {
        '8'
    } else if n == 9 {
        '9'
    } else if n == 10 {
        'a'
    } else if n == 11 {
        'b'
    } else if n == 12 {
        'c'
    } else if n == 13 {
        'd'
    } else if n == 14 {
        'e'
    } else {
        'f'
    }
}

/// Lower-case hex encoding of a byte sequence, two characters per byte,
/// high nibble first.
pub open spec fn spec_hex_of(data: Seq<u8>) -> Seq<char>
    decreases data.len(),
{
    if data.len() == 0 {
        Seq::empty()
    } else {
        seq![
            spec_hex_char((data.first() / 16) as nat),
            spec_hex_char((data.first() % 16) as nat),
        ] + spec_hex_of(data.drop_first())
    }
}

fn hex_char(n: u8) -> (r: char)
    requires
        n < 16,
    ensures
        r == spec_hex_char(n as nat),
{
    if n == 0 {
        '0'
    } else if n == 1 {
        '1'
    } else if n == 2 {
        '2'
    } else if n == 3 {
        '3'
    } else if n == 4 {
        '4'
    } else if n == 5 {
        '5'
    } else if n == 6 {
        '6'
    } else if n == 7 {
        '7'
    } else if n == 8 {
        '8'
    } else if n == 9 {
        '9'
    } else if n == 10 {
        'a'
    } else if n == 11 {
        'b'
    } else if n == 12 {
        'c'
    } else if n == 13 {
        'd'
    } else if n == 14 {
        'e'
    } else {
        'f'
    }
}

/// Lower-case hex encoding of a byte vector.
pub fn bytes_to_hex(data: &Vec<u8>) -> (r: String)
    ensures
        r@ == spec_hex_of(data@),
{
    let mut r = String::new();
    let mut i: usize = 0;
    proof {
        assert(data@.skip(0) =~= data@);
        assert(r@ + spec_hex_of(data@.skip(0)) =~= spec_hex_of(data@));
    }
    while i < data.len()
        invariant
            0 <= i <= data.len(),
            r@ + spec_hex_of(data@.skip(i as int)) == spec_hex_of(data@),
        decreases data.len() - i,
    {
        let b = data[i];
        proof {
            assert(data@.skip(i as int).first() == data@[i as int]);
            assert(data@.skip(i as int).drop_first() =~= data@.skip(i + 1));
            assert(b / 16 < 16 && b % 16 < 16);
        }
        r.push(hex_char(b / 16));
        r.push(hex_char(b % 16));
        proof {
            assert(r@ + spec_hex_of(data@.skip(i + 1)) =~= spec_hex_of(data@));
        }
        i = i + 1;
    }
    proof {
        assert(spec_hex_of(data@.skip(data@.len() as int)) =~= Seq::<char>::empty());
        assert(r@ =~= spec_hex_of(data@));
    }
    r
}

/// The trusted-key list a keys document denotes: one key identifier per
/// nonblank line, trimmed.
pub open spec fn spec_keys_of(content: Seq<char>) -> Seq<Seq<char>> {
    spec_clean_list(spec_split(content, '\n'))
}

/// Checksum and trust-list validation.
#[derive(Debug)]
pub struct SecurityVerifier {
    pub trusted_keys: Vec<String>,
}

impl View for SecurityVerifier {
    type V = Seq<Seq<char>>;

    open spec fn view(&self) -> Seq<Seq<char>> {
        self.trusted_keys.deep_view()
    }
}

impl SecurityVerifier {
    /// A verifier that trusts no keys.
    pub fn new() -> (r: Self)
        ensures
            r@ == Seq::<Seq<char>>::empty(),
    {
        let r = SecurityVerifier { trusted_keys: Vec::new() };
        proof {
            assert(r@ =~= Seq::<Seq<char>>::empty());
        }
        r
    }

    /// Replaces the trust list with the keys a keys document holds: one
    /// identifier per nonblank line.
    pub fn load_trusted_keys(&mut self, keys_content: &str)
        ensures
            final(self)@ == spec_keys_of(keys_content@),
    {
        let lines = split_str(keys_content, '\n');
        let mut keys: Vec<String> = Vec::new();
        let mut i: usize = 0;
        proof {
            assert(lines.deep_view().skip(0) =~= lines.deep_view());
        }
        while i < lines.len()
            invariant
                0 <= i <= lines.len(),
                lines.deep_view() == spec_split(keys_content@, '\n'),
                lines.deep_view().len() == lines.len(),
                keys.deep_view() + spec_clean_list(lines.deep_view().skip(i as int))
                    == spec_keys_of(keys_content@),
            decreases lines.len() - i,
        {
            proof {
                assert(lines.deep_view().skip(i as int).first() == lines[i as int]@);
                assert(lines.deep_view().skip(i as int).drop_first() =~= lines.deep_view().skip(
                    i + 1,
                ));
            }
            let t = trim_str(lines[i].as_str());
            if t.as_str().unicode_len() > 0 {
                let ghost pre = keys.deep_view();
                let ghost tv = t@;
                keys.push(t);
                proof {
                    assert(keys.deep_view() =~= pre.push(tv));
                    assert(keys.deep_view() + spec_clean_list(lines.deep_view().skip(i + 1))
                        =~= spec_keys_of(keys_content@));
                }
            }
            i = i + 1;
        }
        proof {
            assert(lines.deep_view().skip(lines.len() as int) =~= Seq::<Seq<char>>::empty());
            assert(keys.deep_view() =~= spec_keys_of(keys_content@));
        }
        self.trusted_keys = keys;
    }

    /// Whether `key_id` stands in the trust list.
    pub fn is_key_trusted(&self, key_id: &str) -> (r: bool)
        ensures
            r == spec_has_string(self@, key_id@),
    {
        vec_contains_string(&self.trusted_keys, key_id)
    }

    /// Adds `key_id` to the trust list; adding an already trusted key
    /// changes nothing.
    pub fn add_trusted_key(&mut self, key_id: &str)
        ensures
            spec_has_string(old(self)@, key_id@) ==> final(self)@ == old(self)@,
            !spec_has_string(old(self)@, key_id@) ==> final(self)@ == old(self)@.push(key_id@),
    {
        if !vec_contains_string(&self.trusted_keys, key_id) {
            self.trusted_keys.push(key_id.to_owned());
            proof {
                assert(self@ =~= old(self)@.push(key_id@));
            }
        }
    }

    /// Drops `key_id` from the trust list; reports whether it was
    /// there.
    pub fn remove_trusted_key(&mut self, key_id: &str) -> (r: bool)
        ensures
            final(self)@ == old(self)@.filter(|k: Seq<char>| k != key_id@),
            r == spec_has_string(old(self)@, key_id@),
    {
        let ghost pred = |k: Seq<char>| k != key_id@;
        let mut kept: Vec<String> = Vec::new();
        let mut found = false;
        let mut i: usize = 0;
        let n = self.trusted_keys.len();
        proof {
            assert(self@.len() == n as int);
            assert(self@.take(0) =~= Seq::<Seq<char>>::empty());
            assert(kept.deep_view() =~= self@.take(0).filter(pred));
        }
        while i < n
            invariant
                0 <= i <= n,
                n == self.trusted_keys.len(),
                self@.len() == n as int,
                pred == (|k: Seq<char>| k != key_id@),
                kept.deep_view() == self@.take(i as int).filter(pred),
                found == exists|j: int| 0 <= j < i && #[trigger] self@[j] == key_id@,
            decreases n - i,
        {
            proof {
                assert(self@[i as int] == self.trusted_keys[i as int]@);
                assert(self@.take(i + 1) =~= self@.take(i as int) + seq![self@[i as int]]);
                Seq::filter_distributes_over_add(self@.take(i as int), seq![self@[i as int]], pred);
                reveal_with_fuel(Seq::filter, 2);
                assert(seq![self@[i as int]].drop_last() =~= Seq::<Seq<char>>::empty());
            }
            if str_equal(self.trusted_keys[i].as_str(), key_id) {
                found = true;
            } else {
                let ghost pre = kept.deep_view();
                kept.push(self.trusted_keys[i].clone());
                proof {
                    assert(kept.deep_view() =~= pre.push(self@[i as int]));
                }
            }
            i = i + 1;
        }
        proof {
            assert(self@.take(n as int) =~= self@);
        }
        self.trusted_keys = kept;
        found
    }

    /// The lower-case hex SHA-256 checksum of the data.
    pub fn calculate_checksum(&self, data: &[u8]) -> (r: String)
        ensures
            r@ == spec_hex_of(sha256_of(data@)),
    {
        let digest = sha256_digest(data);
        bytes_to_hex(&digest)
    }

    /// Whether the data's checksum equals `expected_checksum`.
    pub fn verify_checksum(&self, data: &[u8], expected_checksum: &str) -> (r: bool)
        ensures
            r == (spec_hex_of(sha256_of(data@)) == expected_checksum@),
    {
        let calculated = self.calculate_checksum(data);
        str_equal(calculated.as_str(), expected_checksum)
    }

    /// Signature validation fails closed: a signature under an
    /// untrusted key is rejected without further examination, and one
    /// under a trusted key is accepted (no cryptographic engine is part
    /// of this library; trust-list membership is the whole check).
    pub fn verify_signature(&self, data: &[u8], signature: &[u8], key_id: &str) -> (r: bool)
        ensures
            r == spec_has_string(self@, key_id@),
    {
        let _ = data;
        let _ = signature;
        self.is_key_trusted(key_id)
    }

    /// Validates a downloaded package's signature: rejected unless its
    /// key is trusted.
    pub fn verify_package(&self, package_data: &[u8], signature: &[u8], key_id: &str) -> (r: bool)
        ensures
            r == spec_has_string(self@, key_id@),
    {
        if !self.is_key_trusted(key_id) {
            return false;
        }
        self.verify_signature(package_data, signature, key_id)
    }
}

} // verus!
