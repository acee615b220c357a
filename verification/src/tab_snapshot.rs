//! Encrypted per-tab snapshots: page state is encrypted with a key drawn at
//! construction and stored hex-encoded, keyed by tab id.

use vstd::prelude::*;

use crate::tab_memory::{tm_lookup, tm_remove, tm_set};
use crate::text::string_eq_str;

use aes::Aes256;
use block_modes::BlockMode;
use block_modes::Cbc;
use block_padding::Pkcs7;
use rand::Rng;

verus! {

/// The ciphertext the snapshot cipher produces for a key and content; it
/// depends on the key and the characters alone.
pub uninterp spec fn cipher_of(key: Seq<u8>, content: Seq<char>) -> Seq<u8>;

/// The lowercase hexadecimal digit of a value below 16.
pub open spec fn hex_digit(v: int) -> char {
    if v == 0 {
        '0'
    } else if v == 1 {
        '1'
    } else if v == 2 {
        '2'
    } else if v == 3 {
        '3'
    } else if v == 4 {
        '4'
    } else if v == 5 {
        '5'
    } else if v == 6 {
        '6'
    } else if v == 7 {
        '7'
    } else if v == 8 {
        '8'
    } else if v == 9 {
        '9'
    } else if v == 10 {
        'a'
    } else if v == 11 {
        'b'
    } else if v == 12 {
        'c'
    } else if v == 13 {
        'd'
    } else if v == 14 {
        'e'
    } else {
        'f'
    }
}

/// The lowercase hexadecimal text of a byte sequence: two digits per byte,
/// high nibble first.
pub open spec fn hex_of(bytes: Seq<u8>) -> Seq<char> {
    Seq::new(
        (2 * bytes.len()) as nat,
        |i: int|
            if i % 2 == 0 {
                hex_digit(bytes[i / 2] as int / 16)
            } else {
                hex_digit(bytes[i / 2] as int % 16)
            },
    )
}

/// Relies on `rand::thread_rng` and `Rng::gen`: nothing is promised of the
/// drawn bytes but their count.
#[verifier::external_body]
fn random_key() -> (r: Vec<u8>)
    ensures
        r@.len() == 32,
{
    let mut rng = rand::thread_rng();
    (0..32).map(|_| rng.gen()).collect()
}

/// Relies on `block_modes`' CBC mode over AES-256 with PKCS#7 padding and
/// a fixed all-zero initialization vector: the ciphertext is a function of
/// the key and the content alone, named [`cipher_of`].
#[verifier::external_body]
fn encrypt_bytes(key: &Vec<u8>, content: &str) -> (r: Vec<u8>)
    requires
        key@.len() == 32,
    ensures
        r@ == cipher_of(key@, content@),
{
    let iv = [0u8; 16];
    let cipher = Cbc::<Aes256, Pkcs7>::new_from_slices(key.as_slice(), &iv).unwrap();
    cipher.encrypt_vec(content.as_bytes())
}

/// Relies on `hex::encode`: two lowercase hexadecimal digits per byte,
/// high nibble first, exactly as [`hex_of`] states.
#[verifier::external_body]
fn to_hex(bytes: &Vec<u8>) -> (r: String)
    ensures
        r@ == hex_of(bytes@),
{
    hex::encode(bytes.as_slice())
}

/// Encrypted snapshots per tab id.
pub struct TabSnapshot {
    snapshots: Vec<(String, String)>,
    key: Vec<u8>,
}

impl TabSnapshot {
    /// The stored snapshots' model.
    pub closed spec fn snapshots_view(&self) -> Seq<(Seq<char>, Seq<char>)> {
        self.snapshots.deep_view()
    }

    /// The snapshot key's model.
    pub closed spec fn key_view(&self) -> Seq<u8> {
        self.key@
    }

    /// The store's validity: the key has the cipher's size.
    pub closed spec fn wf(&self) -> bool {
        self.key@.len() == 32
    }

    /// Creates an empty store with a freshly drawn key.
    pub fn new() -> (r: TabSnapshot)
        ensures
            r.wf(),
            r.snapshots_view() == Seq::<(Seq<char>, Seq<char>)>::empty(),
    {
        let r = TabSnapshot { snapshots: Vec::new(), key: random_key() };
        proof {
            assert(r.snapshots_view() =~= Seq::<(Seq<char>, Seq<char>)>::empty());
        }
        r
    }

    /// Encrypts `content` under the store's key, stores the hex-encoded
    /// ciphertext for the tab (replacing an earlier snapshot), and returns
    /// it.
    #[verifier::loop_isolation(false)]
    pub fn create_snapshot(&mut self, tab_id: &str, content: &str) -> (r: String)
        requires
            old(self).wf(),
        ensures
            final(self).wf(),
            final(self).key_view() == old(self).key_view(),
            r@ == hex_of(cipher_of(old(self).key_view(), content@)),
            final(self).snapshots_view() == tm_set(
                old(self).snapshots_view(),
                tab_id@,
                r@,
                0,
            ),
    {
        let encrypted = encrypt_bytes(&self.key, content);
        let text = to_hex(&encrypted);
        let out = text.clone();
        let ghost tv = self.snapshots.deep_view();
        let n: usize = self.snapshots.len();
        let mut k: usize = 0;
        while k < n
            invariant
                0 <= k <= n,
                n == self.snapshots@.len(),
                self.snapshots.deep_view() == tv,
                tv.len() == n,
                *self == *old(self),
                text@ == hex_of(cipher_of(old(self).key_view(), content@)),
                tm_set(tv, tab_id@, text@, 0) == tm_set(tv, tab_id@, text@, k as int),
            decreases n - k,
        {
            proof {
                assert(tv[k as int].0 =~= self.snapshots@[k as int].0@);
            }
            if string_eq_str(&self.snapshots[k].0, tab_id) {
                let key_copy = self.snapshots[k].0.clone();
                self.snapshots[k] = (key_copy, text);
                proof {
                    assert(self.snapshots.deep_view() =~~= tv.update(k as int, (tab_id@, out@)));
                }
                return out;
            }
            k = k + 1;
        }
        let ghost before = self.snapshots.deep_view();
        let mut id = String::new();
        id.append(tab_id);
        proof {
            assert(id@ =~= tab_id@);
        }
        self.snapshots.push((id, text));
        proof {
            assert(self.snapshots.deep_view() =~~= before.push((tab_id@, out@)));
        }
        out
    }

    /// The stored (encrypted, hex-encoded) snapshot of a tab, if any.
    pub fn get_snapshot(&self, tab_id: &str) -> (r: Option<String>)
        ensures
            match r {
                Option::Some(v) => tm_lookup(self.snapshots_view(), tab_id@) == Option::Some(v@),
                Option::None => tm_lookup(self.snapshots_view(), tab_id@) is None,
            },
    {
        let ghost tv = self.snapshots.deep_view();
        let n: usize = self.snapshots.len();
        let mut k: usize = 0;
        proof {
            assert(tv.skip(0) =~= tv);
        }
        while k < n
            invariant
                0 <= k <= n,
                n == self.snapshots@.len(),
                self.snapshots.deep_view() == tv,
                tv.len() == n,
                tm_lookup(tv, tab_id@) == tm_lookup(tv.skip(k as int), tab_id@),
            decreases n - k,
        {
            proof {
                assert(tv.skip(k as int)[0] == tv[k as int]);
                assert(tv.skip(k as int).drop_first() =~= tv.skip(k + 1));
                assert(tv[k as int].0 =~= self.snapshots@[k as int].0@);
            }
            if string_eq_str(&self.snapshots[k].0, tab_id) {
                return Option::Some(self.snapshots[k].1.clone());
            }
            k = k + 1;
        }
        proof {
            assert(tv.skip(n as int) =~= Seq::<(Seq<char>, Seq<char>)>::empty());
        }
        Option::None
    }

    /// Forgets a tab's snapshot; a missing tab changes nothing.
    #[verifier::loop_isolation(false)]
    pub fn delete_snapshot(&mut self, tab_id: &str)
        requires
            old(self).wf(),
        ensures
            final(self).wf(),
            final(self).snapshots_view() == tm_remove(old(self).snapshots_view(), tab_id@, 0),
    {
        let ghost tv = self.snapshots.deep_view();
        let n: usize = self.snapshots.len();
        let mut k: usize = 0;
        while k < n
            invariant
                0 <= k <= n,
                n == self.snapshots@.len(),
                self.snapshots.deep_view() == tv,
                tv.len() == n,
                *self == *old(self),
                tm_remove(tv, tab_id@, 0) == tm_remove(tv, tab_id@, k as int),
            decreases n - k,
        {
            proof {
                assert(tv[k as int].0 =~= self.snapshots@[k as int].0@);
            }
            if string_eq_str(&self.snapshots[k].0, tab_id) {
                self.snapshots.remove(k);
                proof {
                    assert(self.snapshots.deep_view() =~~= tv.remove(k as int));
                }
                return ;
            }
            k = k + 1;
        }
    }
}

} // verus!
