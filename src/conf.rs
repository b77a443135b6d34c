//! The deployment's ledger references. Each is optional: a stage that needs
//! one that is missing refuses to run for the cycle.
use vstd::prelude::*;

verus! {

/// Configuration of the deployment instance. Ledger accounts are held as
/// their 32 bytes; the treasurer's key pair as its 64 bytes.
#[derive(Debug)]
pub struct Conf {
    program_id: Option<[u8; 32]>,
    token_program: Option<[u8; 32]>,
    associated_token_program: Option<[u8; 32]>,
    dd_mint: Option<[u8; 32]>,
    treasurer_secret_key: Option<Vec<u8>>,
}

impl Conf {
    pub closed spec fn spec_program_id(&self) -> Option<[u8; 32]> {
        self.program_id
    }

    pub closed spec fn spec_token_program(&self) -> Option<[u8; 32]> {
        self.token_program
    }

    pub closed spec fn spec_associated_token_program(&self) -> Option<[u8; 32]> {
        self.associated_token_program
    }

    pub closed spec fn spec_dd_mint(&self) -> Option<[u8; 32]> {
        self.dd_mint
    }

    pub closed spec fn spec_has_treasurer(&self) -> bool {
        self.treasurer_secret_key is Some
    }

    pub closed spec fn spec_treasurer(&self) -> Seq<u8> {
        match self.treasurer_secret_key {
            Some(k) => k@,
            None => Seq::empty(),
        }
    }

    /// The names of the settings that are missing, in a fixed order.
    pub open spec fn missing(&self) -> Seq<Seq<char>> {
        let a = if self.spec_program_id() is None { seq!["PROGRAM_ID"@] } else { Seq::empty() };
        let b = if self.spec_token_program() is None { seq!["TOKEN_PROGRAM"@] } else { Seq::empty() };
        let c = if self.spec_associated_token_program() is None {
            seq!["ASSOCIATED_TOKEN_PROGRAM"@]
        } else {
            Seq::empty()
        };
        let d = if self.spec_dd_mint() is None { seq!["DD_MINT"@] } else { Seq::empty() };
        let e = if !self.spec_has_treasurer() { seq!["TREASURER_SECRET_KEY"@] } else { Seq::empty() };
        a + b + c + d + e
    }

    pub fn new(
        program_id: Option<[u8; 32]>,
        token_program: Option<[u8; 32]>,
        associated_token_program: Option<[u8; 32]>,
        dd_mint: Option<[u8; 32]>,
        treasurer_secret_key: Option<Vec<u8>>,
    ) -> (r: Conf)
        ensures
            r.spec_program_id() == program_id,
            r.spec_token_program() == token_program,
            r.spec_associated_token_program() == associated_token_program,
            r.spec_dd_mint() == dd_mint,
            r.spec_has_treasurer() == treasurer_secret_key is Some,
            treasurer_secret_key matches Some(k) ==> r.spec_treasurer() == k@,
    {
        Conf { program_id, token_program, associated_token_program, dd_mint, treasurer_secret_key }
    }

    /// The names of the missing settings.
    pub fn missing_keys(&self) -> (r: Vec<&'static str>)
        ensures
            r@.map_values(|s: &str| s@) == self.missing(),
    {
        let mut missing: Vec<&'static str> = Vec::new();
        if self.program_id.is_none() {
            missing.push("PROGRAM_ID");
        }
        if self.token_program.is_none() {
            missing.push("TOKEN_PROGRAM");
        }
        if self.associated_token_program.is_none() {
            missing.push("ASSOCIATED_TOKEN_PROGRAM");
        }
        if self.dd_mint.is_none() {
            missing.push("DD_MINT");
        }
        if self.treasurer_secret_key.is_none() {
            missing.push("TREASURER_SECRET_KEY");
        }
        assert(missing@.map_values(|s: &str| s@) =~= self.missing());
        missing
    }

    /// Promotion needs the escrow program's address.
    pub fn can_promote(&self) -> (r: bool)
        ensures
            r == self.spec_program_id() is Some,
    {
        self.program_id.is_some()
    }

    /// Release needs the token program, the associated token program, the
    /// DD mint and the treasurer's key.
    pub fn can_release(&self) -> (r: bool)
        ensures
            r == (self.spec_token_program() is Some && self.spec_associated_token_program() is Some
                && self.spec_dd_mint() is Some && self.spec_has_treasurer()),
    {
        self.token_program.is_some() && self.associated_token_program.is_some() && self.dd_mint.is_some()
            && self.treasurer_secret_key.is_some()
    }

    pub fn program_id(&self) -> (r: Option<&[u8; 32]>)
        ensures
            r is Some <==> self.spec_program_id() is Some,
            r matches Some(k) ==> *k == self.spec_program_id()->Some_0,
    {
        self.program_id.as_ref()
    }

    pub fn token_program(&self) -> (r: Option<&[u8; 32]>)
        ensures
            r is Some <==> self.spec_token_program() is Some,
            r matches Some(k) ==> *k == self.spec_token_program()->Some_0,
    {
        self.token_program.as_ref()
    }

    pub fn associated_token_program(&self) -> (r: Option<&[u8; 32]>)
        ensures
            r is Some <==> self.spec_associated_token_program() is Some,
            r matches Some(k) ==> *k == self.spec_associated_token_program()->Some_0,
    {
        self.associated_token_program.as_ref()
    }

    pub fn dd_mint(&self) -> (r: Option<&[u8; 32]>)
        ensures
            r is Some <==> self.spec_dd_mint() is Some,
            r matches Some(k) ==> *k == self.spec_dd_mint()->Some_0,
    {
        self.dd_mint.as_ref()
    }

    pub fn treasurer_secret_key(&self) -> (r: Option<&Vec<u8>>)
        ensures
            r is Some <==> self.spec_has_treasurer(),
            r matches Some(k) ==> k@ == self.spec_treasurer(),
    {
        self.treasurer_secret_key.as_ref()
    }
}

} // verus!
