//! An account this node owns: a name and a key pair.

use vstd::prelude::*;
use crate::crypto::ed25519_public_of;
use crate::protocol::{Keypair, PublicKey, SECRET_KEY_LENGTH};

verus! {

/// An owned account, not just any account of the network.
pub struct Account {
    name: String,
    keypair: Keypair,
}

impl Account {
    /// The account's name.
    pub closed spec fn name_spec(&self) -> Seq<char> {
        self.name@
    }

    /// The account's secret key.
    pub closed spec fn secret_key(&self) -> Seq<u8> {
        self.keypair.secret_key()
    }

    /// The account of this name whose secret key is `buf`.
    pub fn from_bytes(name: &String, buf: &[u8; SECRET_KEY_LENGTH]) -> (r: Account)
        ensures
            r.name_spec() == name@,
            r.secret_key() == buf@,
    {
        Account { name: name.clone(), keypair: Keypair::from_secret(*buf) }
    }

    /// The account's name.
    pub fn name(&self) -> (r: &String)
        ensures
            r@ == self.name_spec(),
    {
        &self.name
    }

    /// The secret key's bytes, as they are stored.
    pub fn to_bytes(&self) -> (r: [u8; SECRET_KEY_LENGTH])
        ensures
            r@ == self.secret_key(),
    {
        self.keypair.secret_bytes()
    }

    /// The public key of the account.
    pub fn public_key(&self) -> (r: PublicKey)
        ensures
            r@ == ed25519_public_of(self.secret_key()),
    {
        self.keypair.public()
    }

    /// The account's key pair, to sign with.
    pub fn keypair(&self) -> (r: Keypair)
        ensures
            r.secret_key() == self.secret_key(),
            r.public_key() == ed25519_public_of(self.secret_key()),
    {
        let kp = self.keypair;
        let _ = kp.public();
        kp
    }
}

} // verus!
