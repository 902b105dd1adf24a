//! The virtual addresses that an endpoint holds.
use crate::identifiers::{address_among, ClientAddr, ScopedVirtualAddr, ServerAddr};
use vstd::prelude::*;

verus! {

/// An address that an endpoint holds: as an application's server, or as one of its clients.
#[derive(Clone, Copy, Debug, PartialEq, Eq, Hash)]
pub enum LocalBinding {
    Server(ServerAddr),
    Client(ClientAddr),
}

/// The address of a binding.
pub open spec fn scoped_of(b: LocalBinding) -> ScopedVirtualAddr {
    match b {
        LocalBinding::Server(address) => ScopedVirtualAddr::Server { app: address.app },
        LocalBinding::Client(address) => ScopedVirtualAddr::Client {
            app: address.app,
            device: address.device,
        },
    }
}

/// The addresses of bindings.
pub open spec fn all_scoped(s: Seq<LocalBinding>) -> Seq<ScopedVirtualAddr> {
    Seq::new(s.len(), |i: int| scoped_of(s[i]))
}

impl LocalBinding {
    /// The address of the binding.
    pub fn scoped(self) -> (address: ScopedVirtualAddr)
        ensures
            address == scoped_of(self),
    {
        match self {
            LocalBinding::Server(address) => address.scoped(),
            LocalBinding::Client(address) => address.scoped(),
        }
    }
}

/// Why bindings are not accepted.
#[derive(Clone, Copy, Debug, PartialEq, Eq, Structural)]
pub enum LocalBindingsError {
    Empty,
    Duplicate,
}

impl LocalBindingsError {
    /// What went wrong, in words.
    pub fn message(&self) -> (text: &'static str)
        ensures
            text@ == match *self {
                LocalBindingsError::Empty => "at least one local binding is required"@,
                LocalBindingsError::Duplicate => "duplicate local binding"@,
            },
    {
        match self {
            LocalBindingsError::Empty => "at least one local binding is required",
            LocalBindingsError::Duplicate => "duplicate local binding",
        }
    }
}

/// A set of addresses that an endpoint holds.
#[derive(Debug, Eq)]
pub struct LocalBindings {
    addresses: Vec<ScopedVirtualAddr>,
}

impl View for LocalBindings {
    type V = Set<ScopedVirtualAddr>;

    closed spec fn view(&self) -> Set<ScopedVirtualAddr> {
        self.addresses@.to_set()
    }
}

impl vstd::std_specs::cmp::PartialEqSpecImpl for LocalBindings {
    open spec fn obeys_eq_spec() -> bool {
        true
    }

    open spec fn eq_spec(&self, other: &Self) -> bool {
        self@ == other@
    }
}

impl PartialEq for LocalBindings {
    fn eq(&self, other: &Self) -> (equal: bool) {
        proof {
            assert(self@ =~= other@ <==> self@.subset_of(other@) && other@.subset_of(self@));
        }
        self.within(other) && other.within(self)
    }
}

impl Clone for LocalBindings {
    fn clone(&self) -> (copy: Self)
        ensures
            copy@ == self@,
    {
        proof {
            use_type_invariant(self);
        }
        let addresses: Vec<ScopedVirtualAddr> = self.addresses.clone();
        assert(addresses@ =~= self.addresses@);
        LocalBindings { addresses }
    }
}

impl LocalBindings {
    #[verifier::type_invariant]
    spec fn well_formed(self) -> bool {
        self.addresses@.no_duplicates()
    }

    /// Whether every address is also in another set.
    fn within(&self, other: &Self) -> (contained: bool)
        ensures
            contained == self@.subset_of(other@),
    {
        let mut i: usize = 0;
        while i < self.addresses.len()
            invariant
                i <= self.addresses.len(),
                forall|j: int|
                    0 <= j < i ==> other.addresses@.contains(#[trigger] self.addresses@[j]),
            decreases self.addresses.len() - i,
        {
            if !address_among(&other.addresses, self.addresses[i]) {
                assert(self@.contains(self.addresses@[i as int]));
                assert(!other@.contains(self.addresses@[i as int]));
                return false;
            }
            i = i + 1;
        }
        true
    }

    /// No address at all: an endpoint that only looks after its network.
    pub fn control_plane() -> (bindings: Self)
        ensures
            bindings@ == Set::<ScopedVirtualAddr>::empty(),
    {
        let bindings = LocalBindings { addresses: Vec::new() };
        assert(bindings@ =~= Set::empty());
        bindings
    }

    /// The addresses of bindings: at least one, and none twice.
    pub fn new(bindings: Vec<LocalBinding>) -> (made: Result<Self, LocalBindingsError>)
        ensures
            match made {
                Ok(made) => bindings@.len() > 0 && all_scoped(bindings@).no_duplicates() && made@
                    == all_scoped(bindings@).to_set(),
                Err(LocalBindingsError::Duplicate) => !all_scoped(bindings@).no_duplicates(),
                Err(LocalBindingsError::Empty) => bindings@.len() == 0,
            },
    {
        let ghost all = all_scoped(bindings@);
        let mut addresses: Vec<ScopedVirtualAddr> = Vec::new();
        let mut i: usize = 0;
        while i < bindings.len()
            invariant
                i <= bindings.len(),
                all == all_scoped(bindings@),
                addresses@ =~= all.take(i as int),
                addresses@.no_duplicates(),
            decreases bindings.len() - i,
        {
            let address: ScopedVirtualAddr = bindings[i].scoped();
            if address_among(&addresses, address) {
                proof {
                    let j = choose|j: int| 0 <= j < addresses@.len() && addresses@[j] == address;
                    assert(all[j] == all[i as int]);
                }
                return Err(LocalBindingsError::Duplicate);
            }
            addresses.push(address);
            i = i + 1;
        }
        assert(addresses@ =~= all);
        if addresses.len() == 0 {
            return Err(LocalBindingsError::Empty);
        }
        Ok(LocalBindings { addresses })
    }

    pub fn contains(&self, address: ScopedVirtualAddr) -> (held: bool)
        ensures
            held == self@.contains(address),
    {
        address_among(&self.addresses, address)
    }

    pub fn contains_client(&self, address: ClientAddr) -> (held: bool)
        ensures
            held == self@.contains(scoped_of(LocalBinding::Client(address))),
    {
        self.contains(address.scoped())
    }

    pub fn contains_server(&self, address: ServerAddr) -> (held: bool)
        ensures
            held == self@.contains(scoped_of(LocalBinding::Server(address))),
    {
        self.contains(address.scoped())
    }

    /// The addresses, each once.
    pub fn iter(&self) -> (addresses: Vec<ScopedVirtualAddr>)
        ensures
            addresses@.no_duplicates(),
            addresses@.to_set() == self@,
    {
        proof {
            use_type_invariant(self);
        }
        let addresses: Vec<ScopedVirtualAddr> = self.addresses.clone();
        assert(addresses@ =~= self.addresses@);
        addresses
    }

    /// The addresses that are held as a server, each once.
    pub fn servers(&self) -> (servers: Vec<ServerAddr>)
        ensures
            servers@.no_duplicates(),
            forall|address: ServerAddr| #[trigger]
                servers@.contains(address) <==> self@.contains(
                    scoped_of(LocalBinding::Server(address)),
                ),
    {
        proof {
            use_type_invariant(self);
        }
        let ghost all = self.addresses@;
        let mut servers: Vec<ServerAddr> = Vec::new();
        let mut i: usize = 0;
        while i < self.addresses.len()
            invariant
                i <= self.addresses.len(),
                all == self.addresses@,
                all.no_duplicates(),
                servers@.no_duplicates(),
                forall|address: ServerAddr| #[trigger]
                    servers@.contains(address) <==> all.take(i as int).contains(
                        scoped_of(LocalBinding::Server(address)),
                    ),
            decreases self.addresses.len() - i,
        {
            let ghost before = servers@;
            let ghost next = all[i as int];
            proof {
                assert(all.take(i + 1) =~= all.take(i as int).push(next));
                if all.take(i as int).contains(next) {
                    let j = choose|j: int| 0 <= j < i && all.take(i as int)[j] == next;
                    assert(all[j] == all[i as int]);
                }
            }
            match self.addresses[i] {
                ScopedVirtualAddr::Server { app } => {
                    let server: ServerAddr = ServerAddr::new(app);
                    assert(!before.contains(server));
                    servers.push(server);
                    proof {
                        assert forall|address: ServerAddr| #[trigger]
                            servers@.contains(address) <==> all.take(i + 1).contains(
                                scoped_of(LocalBinding::Server(address)),
                            ) by {
                            vstd::seq_lib::lemma_seq_contains_after_push(before, server, address);
                            vstd::seq_lib::lemma_seq_contains_after_push(
                                all.take(i as int),
                                next,
                                scoped_of(LocalBinding::Server(address)),
                            );
                        }
                    }
                },
                ScopedVirtualAddr::Client { .. } => {
                    proof {
                        assert forall|address: ServerAddr| #[trigger]
                            servers@.contains(address) <==> all.take(i + 1).contains(
                                scoped_of(LocalBinding::Server(address)),
                            ) by {
                            vstd::seq_lib::lemma_seq_contains_after_push(
                                all.take(i as int),
                                next,
                                scoped_of(LocalBinding::Server(address)),
                            );
                        }
                    }
                },
            }
            i = i + 1;
        }
        assert(all.take(i as int) =~= all);
        servers
    }

    /// The addresses that are held as a client, each once.
    pub fn clients(&self) -> (clients: Vec<ClientAddr>)
        ensures
            clients@.no_duplicates(),
            forall|address: ClientAddr| #[trigger]
                clients@.contains(address) <==> self@.contains(
                    scoped_of(LocalBinding::Client(address)),
                ),
    {
        proof {
            use_type_invariant(self);
        }
        let ghost all = self.addresses@;
        let mut clients: Vec<ClientAddr> = Vec::new();
        let mut i: usize = 0;
        while i < self.addresses.len()
            invariant
                i <= self.addresses.len(),
                all == self.addresses@,
                all.no_duplicates(),
                clients@.no_duplicates(),
                forall|address: ClientAddr| #[trigger]
                    clients@.contains(address) <==> all.take(i as int).contains(
                        scoped_of(LocalBinding::Client(address)),
                    ),
            decreases self.addresses.len() - i,
        {
            let ghost before = clients@;
            let ghost next = all[i as int];
            proof {
                assert(all.take(i + 1) =~= all.take(i as int).push(next));
                if all.take(i as int).contains(next) {
                    let j = choose|j: int| 0 <= j < i && all.take(i as int)[j] == next;
                    assert(all[j] == all[i as int]);
                }
            }
            match self.addresses[i] {
                ScopedVirtualAddr::Client { app, device } => {
                    let client: ClientAddr = ClientAddr::new(app, device);
                    assert(!before.contains(client));
                    clients.push(client);
                    proof {
                        assert forall|address: ClientAddr| #[trigger]
                            clients@.contains(address) <==> all.take(i + 1).contains(
                                scoped_of(LocalBinding::Client(address)),
                            ) by {
                            vstd::seq_lib::lemma_seq_contains_after_push(before, client, address);
                            vstd::seq_lib::lemma_seq_contains_after_push(
                                all.take(i as int),
                                next,
                                scoped_of(LocalBinding::Client(address)),
                            );
                        }
                    }
                },
                ScopedVirtualAddr::Server { .. } => {
                    proof {
                        assert forall|address: ClientAddr| #[trigger]
                            clients@.contains(address) <==> all.take(i + 1).contains(
                                scoped_of(LocalBinding::Client(address)),
                            ) by {
                            vstd::seq_lib::lemma_seq_contains_after_push(
                                all.take(i as int),
                                next,
                                scoped_of(LocalBinding::Client(address)),
                            );
                        }
                    }
                },
            }
            i = i + 1;
        }
        assert(all.take(i as int) =~= all);
        clients
    }
}

} // verus!
