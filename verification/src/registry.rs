//! TokenRegistry: which tokens are approved for distribution.
//!
//! Registration spans two steps.  The initiating step marks the address as
//! pending and is the point where the host issues the asynchronous metadata
//! query; the confirming step delivers the query's outcome and either stores
//! the token immutably or drops the pending marker so the caller can retry.

use vstd::prelude::*;
use crate::errors::ErrorKind;

verus! {

/// Descriptive metadata of a fungible token.
pub struct TokenMetadata {
    pub name: String,
    pub symbol: String,
    pub decimals: u8,
}

/// The mathematical value of a [`TokenMetadata`].
pub struct TokenMetadataView {
    pub name: Seq<char>,
    pub symbol: Seq<char>,
    pub decimals: u8,
}

impl View for TokenMetadata {
    type V = TokenMetadataView;

    open spec fn view(&self) -> TokenMetadataView {
        TokenMetadataView { name: self.name@, symbol: self.symbol@, decimals: self.decimals }
    }
}

impl TokenMetadata {
    /// Builds a metadata value from its parts.
    pub fn new(name: String, symbol: String, decimals: u8) -> (r: TokenMetadata)
        ensures
            r@ == (TokenMetadataView { name: name@, symbol: symbol@, decimals }),
    {
        TokenMetadata { name, symbol, decimals }
    }

    /// A field-for-field copy.
    pub fn duplicate(&self) -> (r: TokenMetadata)
        ensures
            r == *self,
    {
        TokenMetadata {
            name: self.name.clone(),
            symbol: self.symbol.clone(),
            decimals: self.decimals,
        }
    }
}

/// A registered token: its unique address and its metadata, immutable once
/// stored.
pub struct Token {
    pub address: String,
    pub metadata: TokenMetadata,
}

/// Records which tokens are approved for distribution, in registration
/// order, together with the pending markers of unconfirmed registrations.
pub struct TokenRegistry {
    /// Confirmed registrations, in registration order.  Never shrinks.
    pub registered: Vec<Token>,
    /// Addresses whose metadata query is outstanding.
    pub pending: Vec<String>,
}

impl TokenRegistry {
    /// Whether `addr` is a confirmed registered token.
    pub open spec fn is_registered(self, addr: Seq<char>) -> bool {
        exists|i: int| 0 <= i < self.registered@.len() && self.registered@[i].address@ == addr
    }

    /// Whether a registration of `addr` awaits its confirming step.
    pub open spec fn is_pending(self, addr: Seq<char>) -> bool {
        exists|i: int| 0 <= i < self.pending@.len() && self.pending@[i]@ == addr
    }

    /// Registered addresses are pairwise distinct, and so are pending
    /// markers.
    pub open spec fn wf(self) -> bool {
        &&& forall|i: int, j: int|
            0 <= i < j < self.registered@.len() ==> self.registered@[i].address@
                != self.registered@[j].address@
        &&& forall|i: int, j: int|
            0 <= i < j < self.pending@.len() ==> self.pending@[i]@ != self.pending@[j]@
    }

    /// An empty registry.
    pub fn empty() -> (r: TokenRegistry)
        ensures
            r.registered@ =~= Seq::<Token>::empty(),
            r.pending@ =~= Seq::<String>::empty(),
            r.wf(),
    {
        TokenRegistry { registered: Vec::new(), pending: Vec::new() }
    }

    /// Index of `addr` among the registered tokens, if any.
    fn find_registered(&self, addr: &String) -> (r: Option<usize>)
        ensures
            match r {
                Some(i) => i < self.registered@.len() && self.registered@[i as int].address@
                    == addr@,
                None => !self.is_registered(addr@),
            },
    {
        let mut i: usize = 0;
        while i < self.registered.len()
            invariant
                i <= self.registered@.len(),
                forall|j: int| 0 <= j < i ==> self.registered@[j].address@ != addr@,
            decreases self.registered@.len() - i,
        {
            if self.registered[i].address == *addr {
                return Some(i);
            }
            i = i + 1;
        }
        None
    }

    /// Index of `addr` among the pending markers, if any.
    fn find_pending(&self, addr: &String) -> (r: Option<usize>)
        ensures
            match r {
                Some(i) => i < self.pending@.len() && self.pending@[i as int]@ == addr@,
                None => !self.is_pending(addr@),
            },
    {
        let mut i: usize = 0;
        while i < self.pending.len()
            invariant
                i <= self.pending@.len(),
                forall|j: int| 0 <= j < i ==> self.pending@[j]@ != addr@,
            decreases self.pending@.len() - i,
        {
            if self.pending[i] == *addr {
                return Some(i);
            }
            i = i + 1;
        }
        None
    }

    /// Whether `addr` is a confirmed registered token.
    pub fn contains(&self, addr: &String) -> (r: bool)
        ensures
            r == self.is_registered(addr@),
    {
        self.find_registered(addr).is_some()
    }

    /// Initiating step of a registration: refuses an address that is
    /// already registered, otherwise marks it pending (idempotently, so a
    /// stuck registration can be retried).
    pub fn begin_register(&mut self, address: String) -> (r: Result<(), ErrorKind>)
        requires
            old(self).wf(),
        ensures
            final(self).wf(),
            old(self).is_registered(address@) ==> r == Err::<(), ErrorKind>(ErrorKind::DuplicateToken)
                && *final(self) == *old(self),
            !old(self).is_registered(address@) ==> {
                &&& r == Ok::<(), ErrorKind>(())
                &&& final(self).registered@ == old(self).registered@
                &&& (old(self).is_pending(address@) ==> final(self).pending@ == old(self).pending@)
                &&& (!old(self).is_pending(address@) ==> final(self).pending@ == old(self).pending@.push(address))
            },
    {
        if self.find_registered(&address).is_some() {
            return Err(ErrorKind::DuplicateToken);
        }
        if self.find_pending(&address).is_none() {
            self.pending.push(address);
        }
        Ok(())
    }

    /// Confirming step of a registration.  `metadata` carries the outcome
    /// of the metadata query: `None` when the remote call errored, timed
    /// out, or returned undecodable data.  On success the token is stored
    /// immutably; on failure the pending marker is dropped so the caller
    /// can retry; a confirmation with no matching initiation changes
    /// nothing.
    pub fn resolve_register(&mut self, address: String, metadata: Option<TokenMetadata>) -> (r:
        Result<(), ErrorKind>)
        requires
            old(self).wf(),
        ensures
            final(self).wf(),
            old(self).is_registered(address@) ==> r == Err::<(), ErrorKind>(ErrorKind::DuplicateToken)
                && *final(self) == *old(self),
            !old(self).is_registered(address@) && !old(self).is_pending(address@) ==> r == Err::<
                (),
                ErrorKind,
            >(ErrorKind::MetadataFetchFailed) && *final(self) == *old(self),
            !old(self).is_registered(address@) && old(self).is_pending(address@) ==> {
                &&& exists|k: int|
                    0 <= k < old(self).pending@.len() && old(self).pending@[k]@ == address@
                        && final(self).pending@ == old(self).pending@.remove(k)
                &&& match metadata {
                    Some(m) => r == Ok::<(), ErrorKind>(()) && final(self).registered@
                        == old(self).registered@.push(Token { address, metadata: m }),
                    None => r == Err::<(), ErrorKind>(ErrorKind::MetadataFetchFailed)
                        && final(self).registered@ == old(self).registered@,
                }
            },
    {
        if self.find_registered(&address).is_some() {
            return Err(ErrorKind::DuplicateToken);
        }
        match self.find_pending(&address) {
            None => Err(ErrorKind::MetadataFetchFailed),
            Some(k) => {
                self.pending.remove(k);
                match metadata {
                    Some(m) => {
                        self.registered.push(Token { address, metadata: m });
                        Ok(())
                    },
                    None => Err(ErrorKind::MetadataFetchFailed),
                }
            },
        }
    }

    /// All registered metadata, in registration order.
    pub fn list(&self) -> (r: Vec<TokenMetadata>)
        ensures
            r@ == self.registered@.map_values(|t: Token| t.metadata),
    {
        let mut r: Vec<TokenMetadata> = Vec::new();
        let mut i: usize = 0;
        while i < self.registered.len()
            invariant
                i <= self.registered@.len(),
                r@ == self.registered@.subrange(0, i as int).map_values(|t: Token| t.metadata),
            decreases self.registered@.len() - i,
        {
            r.push(self.registered[i].metadata.duplicate());
            proof {
                assert(self.registered@.subrange(0, i + 1 as int) =~= self.registered@.subrange(
                    0,
                    i as int,
                ).push(self.registered@[i as int]));
                assert(r@ =~= self.registered@.subrange(0, i + 1 as int).map_values(
                    |t: Token| t.metadata,
                ));
            }
            i = i + 1;
        }
        proof {
            assert(self.registered@.subrange(0, self.registered@.len() as int)
                =~= self.registered@);
        }
        r
    }
}

} // verus!
