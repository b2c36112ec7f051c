use crate::configuration_error::ConfigurationError;
use vstd::prelude::*;

verus! {

/// A unique string identifying a server for all time.
pub type ServerID = String;

/// A network address for a server that a transport can contact.
pub type ServerAddress = String;

/// The role of a server in the cluster. Only `Voter` counts toward quorum.
#[derive(Debug, Clone, Copy, PartialEq, Eq, Structural)]
pub enum ServerSuffrage {
    Voter,
    Nonvoter,
    Staging,
}

/// One member of a configuration.
#[derive(Debug, Clone)]
pub struct Server {
    pub suffrage: ServerSuffrage,
    pub id: ServerID,
    pub addr: ServerAddress,
}

/// The mathematical value of a `Server`.
pub struct ServerView {
    pub suffrage: ServerSuffrage,
    pub id: Seq<char>,
    pub addr: Seq<char>,
}

impl View for Server {
    type V = ServerView;

    open spec fn view(&self) -> ServerView {
        ServerView { suffrage: self.suffrage, id: self.id@, addr: self.addr@ }
    }
}

impl Server {
    /// A copy of this server, field for field.
    pub fn duplicate(&self) -> (r: Server)
        ensures
            r@ == self@,
    {
        Server { suffrage: self.suffrage, id: self.id.clone(), addr: self.addr.clone() }
    }
}

impl PartialEq for Server {
    fn eq(&self, other: &Server) -> (r: bool) {
        self.suffrage == other.suffrage && self.id == other.id && self.addr == other.addr
    }
}

impl vstd::std_specs::cmp::PartialEqSpecImpl for Server {
    open spec fn obeys_eq_spec() -> bool {
        true
    }

    open spec fn eq_spec(&self, other: &Server) -> bool {
        self@ == other@
    }
}

/// The servers of a cluster, in order.
#[derive(Debug, Clone)]
pub struct Configuration {
    pub servers: Vec<Server>,
}

/// The views of a sequence of servers.
pub open spec fn servers_view(v: Seq<Server>) -> Seq<ServerView> {
    v.map_values(|s: Server| s@)
}

impl View for Configuration {
    type V = Seq<ServerView>;

    open spec fn view(&self) -> Seq<ServerView> {
        servers_view(self.servers@)
    }
}

impl PartialEq for Configuration {
    fn eq(&self, other: &Configuration) -> (r: bool) {
        let n = self.servers.len();
        if n != other.servers.len() {
            assert(self@.len() != other@.len());
            return false;
        }
        let mut i: usize = 0;
        while i < n
            invariant
                n == self.servers.len(),
                n == other.servers.len(),
                0 <= i <= n,
                forall|k: int| 0 <= k < i ==> self@[k] == other@[k],
            decreases n - i,
        {
            if !(self.servers[i] == other.servers[i]) {
                assert(self@[i as int] != other@[i as int]);
                return false;
            }
            i += 1;
        }
        assert(self@ =~= other@);
        true
    }
}

impl vstd::std_specs::cmp::PartialEqSpecImpl for Configuration {
    open spec fn obeys_eq_spec() -> bool {
        true
    }

    open spec fn eq_spec(&self, other: &Configuration) -> bool {
        self@ == other@
    }
}

/// The last configuration known to be committed and the latest one proposed.
#[derive(Debug, Clone)]
pub struct Configurations {
    pub committed: Configuration,
    pub committed_index: u64,
    pub latest: Configuration,
    pub latest_index: u64,
}

/// The ways to change the cluster membership.
#[derive(Debug, Clone, Copy, PartialEq, Eq, Structural)]
pub enum ConfigurationChangeCommand {
    AddStaging,
    AddNonvoter,
    DemoteVoter,
    RemoveServer,
    Promote,
}

/// The name of a change command.
pub open spec fn command_name(c: ConfigurationChangeCommand) -> Seq<char> {
    match c {
        ConfigurationChangeCommand::AddStaging => "AddStaging"@,
        ConfigurationChangeCommand::AddNonvoter => "AddNonvoter"@,
        ConfigurationChangeCommand::DemoteVoter => "DemoteVoter"@,
        ConfigurationChangeCommand::RemoveServer => "RemoveServer"@,
        ConfigurationChangeCommand::Promote => "Promote"@,
    }
}

impl ConfigurationChangeCommand {
    /// The name of this command.
    pub fn configuration_change_command(self) -> (r: String)
        ensures
            r@ == command_name(self),
    {
        match self {
            ConfigurationChangeCommand::AddStaging => String::from_str("AddStaging"),
            ConfigurationChangeCommand::AddNonvoter => String::from_str("AddNonvoter"),
            ConfigurationChangeCommand::DemoteVoter => String::from_str("DemoteVoter"),
            ConfigurationChangeCommand::RemoveServer => String::from_str("RemoveServer"),
            ConfigurationChangeCommand::Promote => String::from_str("Promote"),
        }
    }
}

/// An intent to change the membership, guarded by the index of the
/// configuration it was computed against.
#[derive(Debug, Clone)]
pub struct ConfigurationChangeRequest {
    pub command: ConfigurationChangeCommand,
    pub server_id: ServerID,
    pub server_addr: ServerAddress,
    pub prev_index: Option<u64>,
}

/// Whether some server with this id has the `Voter` suffrage.
pub open spec fn is_voter_with_id(s: Seq<ServerView>, id: Seq<char>) -> bool {
    exists|i: int| 0 <= i < s.len() && s[i].id == id && s[i].suffrage == ServerSuffrage::Voter
}

/// Whether some server has the `Voter` suffrage.
pub open spec fn has_voter(s: Seq<ServerView>) -> bool {
    exists|i: int| 0 <= i < s.len() && s[i].suffrage == ServerSuffrage::Voter
}

/// The fault of server `i`, judged against the servers before it.
pub open spec fn server_error(s: Seq<ServerView>, i: int) -> Option<ConfigurationError> {
    if s[i].id.len() == 0 {
        Some(ConfigurationError::EmptyIdInConfiguration)
    } else if s[i].addr.len() == 0 {
        Some(ConfigurationError::EmptyAddressInConfiguration)
    } else if exists|j: int| 0 <= j < i && s[j].id == s[i].id {
        Some(ConfigurationError::FoundDuplicateIdInConfiguration)
    } else if exists|j: int| 0 <= j < i && s[j].addr == s[i].addr {
        Some(ConfigurationError::FoundDuplicateAddressInConfiguration)
    } else {
        None
    }
}

/// The fault of the first faulty server among the first `n`, if any.
pub open spec fn first_error(s: Seq<ServerView>, n: int) -> Option<ConfigurationError>
    decreases n,
{
    if n <= 0 {
        None
    } else {
        match first_error(s, n - 1) {
            Some(e) => Some(e),
            None => server_error(s, n - 1),
        }
    }
}

/// The outcome of validating a sequence of servers.
pub open spec fn validate(s: Seq<ServerView>) -> Result<(), ConfigurationError> {
    if s.len() == 0 {
        Err(ConfigurationError::EmptyConfiguration)
    } else {
        match first_error(s, s.len() as int) {
            Some(e) => Err(e),
            None => if has_voter(s) {
                Ok(())
            } else {
                Err(ConfigurationError::NeedAtLeastOneVoterInConfiguration)
            },
        }
    }
}

/// Once a prefix has a fault, every longer prefix reports that same fault.
proof fn lemma_first_error_stable(s: Seq<ServerView>, m: int, n: int)
    requires
        0 <= m <= n,
        first_error(s, m) is Some,
    ensures
        first_error(s, n) == first_error(s, m),
    decreases n - m,
{
    if m < n {
        lemma_first_error_stable(s, m, n - 1);
    }
}

/// A configuration is valid when it validates without error.
pub open spec fn valid_servers(s: Seq<ServerView>) -> bool {
    validate(s) is Ok
}

/// Whether `i` is the position of the first server with this id.
pub open spec fn is_first_with_id(s: Seq<ServerView>, id: Seq<char>, i: int) -> bool {
    &&& 0 <= i < s.len()
    &&& s[i].id == id
    &&& forall|j: int| 0 <= j < i ==> s[j].id != id
}

/// The position of the first server with this id, or -1 when there is none.
pub open spec fn position_of(s: Seq<ServerView>, id: Seq<char>) -> int {
    if exists|i: int| is_first_with_id(s, id, i) {
        choose|i: int| is_first_with_id(s, id, i)
    } else {
        -1
    }
}

/// The server at `p` with another suffrage.
pub open spec fn with_suffrage(s: Seq<ServerView>, p: int, suffrage: ServerSuffrage) -> Seq<
    ServerView,
> {
    s.update(p, ServerView { suffrage: suffrage, id: s[p].id, addr: s[p].addr })
}

/// Adds a server with the target suffrage, or, where the id is present,
/// gives that entry the new address and the target suffrage in place.
pub open spec fn with_server(
    s: Seq<ServerView>,
    id: Seq<char>,
    addr: Seq<char>,
    target: ServerSuffrage,
) -> Seq<ServerView> {
    let p = position_of(s, id);
    if p >= 0 {
        s.update(p, ServerView { suffrage: target, id: s[p].id, addr: addr })
    } else {
        s.push(ServerView { suffrage: target, id: id, addr: addr })
    }
}

/// The servers after applying a change command, before validation.
pub open spec fn applied_change(
    s: Seq<ServerView>,
    command: ConfigurationChangeCommand,
    id: Seq<char>,
    addr: Seq<char>,
) -> Seq<ServerView> {
    let p = position_of(s, id);
    match command {
        ConfigurationChangeCommand::AddStaging => with_server(s, id, addr, ServerSuffrage::Voter),
        ConfigurationChangeCommand::AddNonvoter => with_server(
            s,
            id,
            addr,
            ServerSuffrage::Nonvoter,
        ),
        ConfigurationChangeCommand::DemoteVoter => if p >= 0 {
            with_suffrage(s, p, ServerSuffrage::Nonvoter)
        } else {
            s
        },
        ConfigurationChangeCommand::Promote => if p >= 0 && s[p].suffrage
            == ServerSuffrage::Staging {
            with_suffrage(s, p, ServerSuffrage::Voter)
        } else {
            s
        },
        ConfigurationChangeCommand::RemoveServer => if p >= 0 {
            s.remove(p)
        } else {
            s
        },
    }
}

/// Whether a change was computed against another configuration index.
pub open spec fn is_stale(prev_index: Option<u64>, current_index: u64) -> bool {
    match prev_index {
        Some(p) => p != 0 && p != current_index,
        None => false,
    }
}

/// The outcome of computing the next configuration.
pub open spec fn next_servers(
    s: Seq<ServerView>,
    current_index: u64,
    change: ConfigurationChangeRequest,
) -> Result<Seq<ServerView>, ConfigurationError> {
    if is_stale(change.prev_index, current_index) {
        Err(ConfigurationError::ConfigurationChanged)
    } else {
        let next = applied_change(s, change.command, change.server_id@, change.server_addr@);
        if valid_servers(next) {
            Ok(next)
        } else {
            Err(ConfigurationError::NextConfigurationFailed)
        }
    }
}

/// The first position wins: any first position is the one `position_of` picks.
proof fn lemma_position_of(s: Seq<ServerView>, id: Seq<char>, i: int)
    requires
        is_first_with_id(s, id, i),
    ensures
        position_of(s, id) == i,
{
    let k = choose|k: int| is_first_with_id(s, id, k);
    assert(is_first_with_id(s, id, k));
    if k < i {
        assert(s[k].id != id);
    } else if i < k {
        assert(s[i].id != id);
    }
}

/// The position of the first server with this id.
fn find_server(servers: &Vec<Server>, id: &String) -> (r: Option<usize>)
    ensures
        match r {
            Some(p) => p as int == position_of(servers_view(servers@), id@) && p < servers@.len(),
            None => position_of(servers_view(servers@), id@) == -1,
        },
{
    let ghost s = servers_view(servers@);
    let n = servers.len();
    let mut i: usize = 0;
    while i < n
        invariant
            n == servers.len(),
            s == servers_view(servers@),
            0 <= i <= n,
            forall|k: int| 0 <= k < i ==> s[k].id != id@,
        decreases n - i,
    {
        if servers[i].id == *id {
            proof {
                lemma_position_of(s, id@, i as int);
            }
            return Some(i);
        }
        i += 1;
    }
    assert(!exists|k: int| is_first_with_id(s, id@, k));
    None
}

/// A copy of a list of servers.
fn copy_servers(servers: &Vec<Server>) -> (r: Vec<Server>)
    ensures
        servers_view(r@) == servers_view(servers@),
{
    let n = servers.len();
    let mut r: Vec<Server> = Vec::new();
    let mut i: usize = 0;
    while i < n
        invariant
            n == servers.len(),
            0 <= i <= n,
            r@.len() == i,
            forall|k: int| 0 <= k < i ==> #[trigger] r@[k]@ == servers@[k]@,
        decreases n - i,
    {
        r.push(servers[i].duplicate());
        i += 1;
    }
    assert(servers_view(r@) =~= servers_view(servers@));
    r
}

/// The faults of the first `n` servers depend on those servers alone.
proof fn lemma_first_error_prefix(s: Seq<ServerView>, t: Seq<ServerView>, n: int)
    requires
        0 <= n <= s.len(),
        n <= t.len(),
        forall|k: int| 0 <= k < n ==> s[k] == t[k],
    ensures
        first_error(s, n) == first_error(t, n),
    decreases n,
{
    if n > 0 {
        lemma_first_error_prefix(s, t, n - 1);
        assert(server_error(s, n - 1) == server_error(t, n - 1));
    }
}

/// Adding a server whose id and address are new and non-empty to a valid
/// configuration with `AddStaging` succeeds, and the result validates: it is
/// the prior servers, unchanged and in order, followed by one voter with the
/// requested id and address.
pub proof fn lemma_add_fresh_server(
    s: Seq<ServerView>,
    current_index: u64,
    change: ConfigurationChangeRequest,
)
    requires
        valid_servers(s),
        change.command == ConfigurationChangeCommand::AddStaging,
        !is_stale(change.prev_index, current_index),
        change.server_id@.len() > 0,
        change.server_addr@.len() > 0,
        forall|i: int|
            0 <= i < s.len() ==> s[i].id != change.server_id@ && s[i].addr != change.server_addr@,
    ensures
        next_servers(s, current_index, change) == Ok::<Seq<ServerView>, ConfigurationError>(
            s.push(
                ServerView {
                    suffrage: ServerSuffrage::Voter,
                    id: change.server_id@,
                    addr: change.server_addr@,
                },
            ),
        ),
        valid_servers(
            s.push(
                ServerView {
                    suffrage: ServerSuffrage::Voter,
                    id: change.server_id@,
                    addr: change.server_addr@,
                },
            ),
        ),
{
    let id = change.server_id@;
    let addr = change.server_addr@;
    let added = ServerView { suffrage: ServerSuffrage::Voter, id: id, addr: addr };
    let t = s.push(added);
    assert(!exists|i: int| is_first_with_id(s, id, i));
    assert(position_of(s, id) == -1);
    assert(applied_change(s, change.command, id, addr) == t);
    let n = s.len() as int;
    assert(forall|k: int| 0 <= k < n ==> s[k] == t[k]);
    lemma_first_error_prefix(s, t, n);
    assert(first_error(s, n) is None);
    assert(server_error(t, n) is None);
    assert(first_error(t, n + 1) is None);
    assert(t[n].suffrage == ServerSuffrage::Voter);
    assert(has_voter(t));
}

/// With no voter, validation fails: on no servers with `EmptyConfiguration`;
/// on servers whose ids and addresses are non-empty and distinct with
/// `NeedAtLeastOneVoterInConfiguration`.
pub proof fn lemma_validate_without_voters(s: Seq<ServerView>)
    requires
        forall|i: int| 0 <= i < s.len() ==> s[i].suffrage != ServerSuffrage::Voter,
        forall|i: int| 0 <= i < s.len() ==> s[i].id.len() > 0 && s[i].addr.len() > 0,
        forall|i: int, j: int|
            0 <= i < j < s.len() ==> s[i].id != s[j].id && s[i].addr != s[j].addr,
    ensures
        s.len() == 0 ==> validate(s) == Err::<(), ConfigurationError>(
            ConfigurationError::EmptyConfiguration,
        ),
        s.len() > 0 ==> validate(s) == Err::<(), ConfigurationError>(
            ConfigurationError::NeedAtLeastOneVoterInConfiguration,
        ),
{
    lemma_no_faults(s, s.len() as int);
}

/// Servers with non-empty, distinct ids and addresses have no fault.
proof fn lemma_no_faults(s: Seq<ServerView>, n: int)
    requires
        0 <= n <= s.len(),
        forall|i: int| 0 <= i < s.len() ==> s[i].id.len() > 0 && s[i].addr.len() > 0,
        forall|i: int, j: int|
            0 <= i < j < s.len() ==> s[i].id != s[j].id && s[i].addr != s[j].addr,
    ensures
        first_error(s, n) is None,
    decreases n,
{
    if n > 0 {
        lemma_no_faults(s, n - 1);
        assert(server_error(s, n - 1) is None);
    }
}

impl Configuration {
    /// An empty configuration.
    pub fn new() -> (r: Configuration)
        ensures
            r@.len() == 0,
    {
        Configuration { servers: Vec::new() }
    }

    /// Whether a server with this id exists and has the `Voter` suffrage.
    pub fn has_vote(&self, id: ServerID) -> (r: bool)
        ensures
            r == is_voter_with_id(self@, id@),
    {
        let n = self.servers.len();
        let mut i: usize = 0;
        while i < n
            invariant
                n == self.servers.len(),
                0 <= i <= n,
                forall|k: int|
                    0 <= k < i ==> !(#[trigger] self@[k].id == id@ && self@[k].suffrage
                        == ServerSuffrage::Voter),
            decreases n - i,
        {
            let server = &self.servers[i];
            if server.id == id && server.suffrage == ServerSuffrage::Voter {
                assert(self@[i as int].id == id@);
                return true;
            }
            i += 1;
        }
        false
    }

    /// Computes the configuration that a change request leads to. A request
    /// computed against another configuration index fails with
    /// `ConfigurationChanged`; a result that would not validate fails with
    /// `NextConfigurationFailed`. The input is left as it is.
    pub fn next_configuration(&self, current_index: u64, change: ConfigurationChangeRequest) -> (r:
        Result<Self, ConfigurationError>)
        ensures
            match r {
                Ok(c) => next_servers(self@, current_index, change) == Ok::<
                    Seq<ServerView>,
                    ConfigurationError,
                >(c@),
                Err(e) => next_servers(self@, current_index, change) == Err::<
                    Seq<ServerView>,
                    ConfigurationError,
                >(e),
            },
    {
        if let Some(p) = change.prev_index {
            if p != 0 && p != current_index {
                return Err(ConfigurationError::ConfigurationChanged);
            }
        }
        let ghost s = self@;
        let ghost id = change.server_id@;
        let ghost addr = change.server_addr@;
        let mut servers = copy_servers(&self.servers);
        let pos = find_server(&servers, &change.server_id);
        match change.command {
            ConfigurationChangeCommand::AddStaging | ConfigurationChangeCommand::AddNonvoter => {
                let target = if change.command == ConfigurationChangeCommand::AddStaging {
                    ServerSuffrage::Voter
                } else {
                    ServerSuffrage::Nonvoter
                };
                match pos {
                    Some(p) => {
                        let kept_id = servers[p].id.clone();
                        servers.set(
                            p,
                            Server { suffrage: target, id: kept_id, addr: change.server_addr },
                        );
                        assert(servers_view(servers@) =~= with_server(s, id, addr, target));
                    },
                    None => {
                        servers.push(
                            Server {
                                suffrage: target,
                                id: change.server_id,
                                addr: change.server_addr,
                            },
                        );
                        assert(servers_view(servers@) =~= with_server(s, id, addr, target));
                    },
                }
            },
            ConfigurationChangeCommand::DemoteVoter => {
                if let Some(p) = pos {
                    let old = servers[p].duplicate();
                    servers.set(
                        p,
                        Server { suffrage: ServerSuffrage::Nonvoter, id: old.id, addr: old.addr },
                    );
                    assert(servers_view(servers@) =~= with_suffrage(
                        s,
                        p as int,
                        ServerSuffrage::Nonvoter,
                    ));
                }
            },
            ConfigurationChangeCommand::Promote => {
                if let Some(p) = pos {
                    if servers[p].suffrage == ServerSuffrage::Staging {
                        let old = servers[p].duplicate();
                        servers.set(
                            p,
                            Server { suffrage: ServerSuffrage::Voter, id: old.id, addr: old.addr },
                        );
                        assert(servers_view(servers@) =~= with_suffrage(
                            s,
                            p as int,
                            ServerSuffrage::Voter,
                        ));
                    }
                }
            },
            ConfigurationChangeCommand::RemoveServer => {
                if let Some(p) = pos {
                    servers.remove(p);
                    assert(servers_view(servers@) =~= s.remove(p as int));
                }
            },
        }
        let next = Configuration { servers };
        assert(next@ == applied_change(s, change.command, id, addr));
        match next.check_configuration() {
            Ok(()) => Ok(next),
            Err(_) => Err(ConfigurationError::NextConfigurationFailed),
        }
    }

    /// Checks the configuration: it is non-empty, no id or address is empty or
    /// repeated (the first faulty server in order decides the error), and at
    /// least one server is a voter.
    pub fn check_configuration(&self) -> (r: Result<(), ConfigurationError>)
        ensures
            r == validate(self@),
    {
        let n = self.servers.len();
        if n == 0 {
            return Err(ConfigurationError::EmptyConfiguration);
        }
        let mut found_voter = false;
        let mut i: usize = 0;
        while i < n
            invariant
                n == self.servers.len(),
                n == self@.len(),
                0 <= i <= n,
                first_error(self@, i as int) is None,
                found_voter == exists|j: int|
                    0 <= j < i && self@[j].suffrage == ServerSuffrage::Voter,
            decreases n - i,
        {
            let server = &self.servers[i];
            assert(first_error(self@, i + 1) == server_error(self@, i as int));
            if server.id.as_str().is_empty() {
                proof {
                    lemma_first_error_stable(self@, i + 1, n as int);
                }
                return Err(ConfigurationError::EmptyIdInConfiguration);
            }
            if server.addr.as_str().is_empty() {
                proof {
                    lemma_first_error_stable(self@, i + 1, n as int);
                }
                return Err(ConfigurationError::EmptyAddressInConfiguration);
            }
            let mut j: usize = 0;
            while j < i
                invariant
                    n == self.servers.len(),
                    n == self@.len(),
                    0 <= j <= i < n,
                    first_error(self@, i as int) is None,
                    *server == self.servers@[i as int],
                    self@[i as int].id.len() > 0,
                    self@[i as int].addr.len() > 0,
                    forall|k: int| 0 <= k < j ==> self@[k].id != self@[i as int].id,
                decreases i - j,
            {
                if self.servers[j].id == server.id {
                    assert(self@[j as int].id == self@[i as int].id);
                    assert(first_error(self@, i + 1) == server_error(self@, i as int));
                    proof {
                        lemma_first_error_stable(self@, i + 1, n as int);
                    }
                    return Err(ConfigurationError::FoundDuplicateIdInConfiguration);
                }
                j += 1;
            }
            let mut j: usize = 0;
            while j < i
                invariant
                    n == self.servers.len(),
                    n == self@.len(),
                    0 <= j <= i < n,
                    first_error(self@, i as int) is None,
                    *server == self.servers@[i as int],
                    self@[i as int].id.len() > 0,
                    self@[i as int].addr.len() > 0,
                    forall|k: int| 0 <= k < i ==> self@[k].id != self@[i as int].id,
                    forall|k: int| 0 <= k < j ==> self@[k].addr != self@[i as int].addr,
                decreases i - j,
            {
                if self.servers[j].addr == server.addr {
                    assert(self@[j as int].addr == self@[i as int].addr);
                    assert(first_error(self@, i + 1) == server_error(self@, i as int));
                    proof {
                        lemma_first_error_stable(self@, i + 1, n as int);
                    }
                    return Err(ConfigurationError::FoundDuplicateAddressInConfiguration);
                }
                j += 1;
            }
            if server.suffrage == ServerSuffrage::Voter {
                found_voter = true;
            }
            i += 1;
        }
        if !found_voter {
            return Err(ConfigurationError::NeedAtLeastOneVoterInConfiguration);
        }
        Ok(())
    }
}

} // verus!
