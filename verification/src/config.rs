//! The configuration of a gateway with several servers.
//!
//! A server's name becomes the prefix of its tools (`github__create_issue`), so
//! it must be an identifier; see [`GatewayConfig::validate`].
use vstd::prelude::*;
use vstd::std_specs::iter::IteratorSpec;
use vstd::string::*;

use crate::text::{concat3, same_text};

verus! {

/// The mathematical reading of a [`ServerSpec`].
pub struct SpecView {
    pub name: Seq<char>,
    pub command: Seq<char>,
    pub args: Seq<Seq<char>>,
}

/// How to start one server.
#[derive(Debug, Clone)]
pub struct ServerSpec {
    pub name: String,
    pub command: String,
    pub args: Vec<String>,
}

impl View for ServerSpec {
    type V = SpecView;

    open spec fn view(&self) -> SpecView {
        SpecView { name: self.name@, command: self.command@, args: crate::text::texts(self.args@) }
    }
}

/// The configuration of a gateway.
#[derive(Debug)]
pub struct GatewayConfig {
    /// The compression tier, by name.
    pub compression: Option<String>,
    pub servers: Vec<ServerSpec>,
}

/// The readings of servers.
pub open spec fn spec_views(servers: Seq<ServerSpec>) -> Seq<SpecView> {
    servers.map_values(|s: ServerSpec| s@)
}

/// Why a configuration is refused.
#[derive(Debug, Clone, PartialEq, Eq)]
pub enum ConfigError {
    NoServers,
    EmptyName,
    /// The name is not an identifier.
    InvalidName(String),
    DuplicateName(String),
    /// The server of this name has no command.
    EmptyCommand(String),
}

/// The mathematical reading of a [`ConfigError`].
pub enum ProblemView {
    NoServers,
    EmptyName,
    InvalidName(Seq<char>),
    DuplicateName(Seq<char>),
    EmptyCommand(Seq<char>),
}

impl View for ConfigError {
    type V = ProblemView;

    open spec fn view(&self) -> ProblemView {
        match self {
            ConfigError::NoServers => ProblemView::NoServers,
            ConfigError::EmptyName => ProblemView::EmptyName,
            ConfigError::InvalidName(name) => ProblemView::InvalidName(name@),
            ConfigError::DuplicateName(name) => ProblemView::DuplicateName(name@),
            ConfigError::EmptyCommand(name) => ProblemView::EmptyCommand(name@),
        }
    }
}

/// A problem in one sentence.
pub open spec fn problem_text(p: ProblemView) -> Seq<char> {
    match p {
        ProblemView::NoServers => "config must declare at least one [[servers]] entry"@,
        ProblemView::EmptyName => "server `name` must be non-empty"@,
        ProblemView::InvalidName(name) => "server name '"@ + name
            + "' must match [A-Za-z_][A-Za-z0-9_]* — it becomes a tool-name prefix"@,
        ProblemView::DuplicateName(name) => "duplicate server name: "@ + name,
        ProblemView::EmptyCommand(name) => "server '"@ + name + "' has empty command"@,
    }
}

impl ConfigError {
    /// The error in one sentence.
    pub fn message(&self) -> (r: String)
        ensures
            r@ == problem_text(self@),
    {
        match self {
            ConfigError::NoServers => "config must declare at least one [[servers]] entry".to_owned(),
            ConfigError::EmptyName => "server `name` must be non-empty".to_owned(),
            ConfigError::InvalidName(name) => concat3(
                "server name '",
                name.as_str(),
                "' must match [A-Za-z_][A-Za-z0-9_]* — it becomes a tool-name prefix",
            ),
            ConfigError::DuplicateName(name) => {
                let mut out = "duplicate server name: ".to_owned();
                out.append(name.as_str());
                out
            },
            ConfigError::EmptyCommand(name) => concat3("server '", name.as_str(), "' has empty command"),
        }
    }
}

/// Whether `c` is an ASCII digit.
pub open spec fn is_digit(c: char) -> bool {
    '0' <= c && c <= '9'
}

/// Whether `c` is an ASCII letter, an ASCII digit or an underscore.
pub open spec fn is_name_char(c: char) -> bool {
    ('a' <= c && c <= 'z') || ('A' <= c && c <= 'Z') || is_digit(c) || c == '_'
}

/// Whether a name is an identifier: letters, digits and underscores, with no digit in front.
pub open spec fn is_server_name(name: Seq<char>) -> bool {
    &&& name.len() > 0
    &&& !is_digit(name[0])
    &&& forall|i: int| 0 <= i < name.len() ==> is_name_char(#[trigger] name[i])
}

/// Whether an earlier server has the name of the one at `i`.
pub open spec fn name_repeats(servers: Seq<SpecView>, i: int) -> bool {
    exists|j: int| 0 <= j < i && (#[trigger] servers[j]).name == servers[i].name
}

/// What is wrong with the server at `i`.
pub open spec fn server_problem(servers: Seq<SpecView>, i: int) -> Option<ProblemView> {
    let name = servers[i].name;
    if name.len() == 0 {
        Some(ProblemView::EmptyName)
    } else if !is_server_name(name) {
        Some(ProblemView::InvalidName(name))
    } else if name_repeats(servers, i) {
        Some(ProblemView::DuplicateName(name))
    } else if servers[i].command.len() == 0 {
        Some(ProblemView::EmptyCommand(name))
    } else {
        None
    }
}

/// Whether the router can work with the servers: there is at least one, their
/// names are identifiers and differ, and each has a command.
pub open spec fn servers_valid(servers: Seq<SpecView>) -> bool {
    &&& servers.len() > 0
    &&& forall|i: int|
        0 <= i < servers.len() ==> is_server_name((#[trigger] servers[i]).name) && servers[i].command.len() > 0
    &&& forall|i: int, j: int|
        0 <= i < j < servers.len() ==> (#[trigger] servers[i]).name != (#[trigger] servers[j]).name
}

/// Whether `p` is the first problem: that of the first server that has one.
pub open spec fn first_problem(servers: Seq<SpecView>, p: ProblemView) -> bool {
    if servers.len() == 0 {
        p is NoServers
    } else {
        exists|i: int|
            {
                &&& 0 <= i < servers.len()
                &&& #[trigger] server_problem(servers, i) == Some(p)
                &&& forall|j: int| 0 <= j < i ==> #[trigger] server_problem(servers, j) is None
            }
    }
}

fn server_name(name: &str) -> (r: bool)
    requires
        name@.len() > 0,
    ensures
        r == is_server_name(name@),
{
    let mut rest = name.chars();
    let mut first = true;
    let ghost mut k: int = 0;
    loop
        invariant
            0 <= k <= name@.len(),
            name@.len() > 0,
            first == (k == 0),
            k > 0 ==> !is_digit(name@[0]),
            rest.obeys_prophetic_iter_laws(),
            rest.remaining() == name@.skip(k),
            forall|j: int| 0 <= j < k ==> is_name_char(#[trigger] name@[j]),
        decreases name@.len() - k,
    {
        match rest.next() {
            None => {
                return true;
            },
            Some(c) => {
                assert(c == name@[k]);
                let digit = '0' <= c && c <= '9';
                let letter = ('a' <= c && c <= 'z') || ('A' <= c && c <= 'Z') || c == '_';
                if !(digit || letter) || (digit && first) {
                    return false;
                }
                first = false;
                proof {
                    assert(name@.skip(k).drop_first() =~= name@.skip(k + 1));
                    k = k + 1;
                }
            },
        }
    }
}

impl GatewayConfig {
    /// Checks what the router relies on: at least one server, names that are
    /// identifiers and differ, and a command for each.
    pub fn validate(&self) -> (r: Result<(), ConfigError>)
        ensures
            r is Ok <==> servers_valid(spec_views(self.servers@)),
            r matches Err(e) ==> first_problem(spec_views(self.servers@), e@),
    {
        let ghost all = spec_views(self.servers@);
        if self.servers.len() == 0 {
            return Err(ConfigError::NoServers);
        }
        let mut i: usize = 0;
        while i < self.servers.len()
            invariant
                i <= self.servers.len(),
                self.servers.len() > 0,
                all == spec_views(self.servers@),
                forall|j: int| 0 <= j < i ==> #[trigger] server_problem(all, j) is None,
            decreases self.servers.len() - i,
        {
            let server = &self.servers[i];
            let name = server.name.as_str();
            assert(all[i as int] == server@);
            let problem = if name.is_empty() {
                Some(ConfigError::EmptyName)
            } else if !server_name(name) {
                Some(ConfigError::InvalidName(server.name.clone()))
            } else if self.repeats(i) {
                Some(ConfigError::DuplicateName(server.name.clone()))
            } else if server.command.as_str().is_empty() {
                Some(ConfigError::EmptyCommand(server.name.clone()))
            } else {
                None
            };
            match problem {
                Some(e) => {
                    proof {
                        assert(server_problem(all, i as int) == Some(e@));
                        lemma_problem_refutes(all, i as int);
                    }
                    return Err(e);
                },
                None => {
                    assert(server_problem(all, i as int) is None);
                },
            }
            i = i + 1;
        }
        proof {
            lemma_no_problem_accepts(all);
        }
        Ok(())
    }

    /// Whether an earlier server has the name of the one at `i`.
    fn repeats(&self, i: usize) -> (r: bool)
        requires
            i < self.servers.len(),
        ensures
            r == name_repeats(spec_views(self.servers@), i as int),
    {
        let ghost all = spec_views(self.servers@);
        let mut j: usize = 0;
        while j < i
            invariant
                j <= i < self.servers.len(),
                all == spec_views(self.servers@),
                forall|k: int| 0 <= k < j ==> (#[trigger] all[k]).name != all[i as int].name,
            decreases i - j,
        {
            assert(all[j as int].name == self.servers@[j as int].name@);
            assert(all[i as int].name == self.servers@[i as int].name@);
            if same_text(self.servers[j].name.as_str(), self.servers[i].name.as_str()) {
                return true;
            }
            j = j + 1;
        }
        false
    }
}

proof fn lemma_problem_refutes(servers: Seq<SpecView>, i: int)
    requires
        0 <= i < servers.len(),
        server_problem(servers, i) is Some,
    ensures
        !servers_valid(servers),
{
    if servers_valid(servers) {
        assert(is_server_name(servers[i].name));
        if name_repeats(servers, i) {
            let j = choose|j: int| 0 <= j < i && (#[trigger] servers[j]).name == servers[i].name;
            assert(servers[j].name != servers[i].name);
        }
    }
}

proof fn lemma_no_problem_accepts(servers: Seq<SpecView>)
    requires
        servers.len() > 0,
        forall|j: int| 0 <= j < servers.len() ==> #[trigger] server_problem(servers, j) is None,
    ensures
        servers_valid(servers),
{
    assert forall|i: int| 0 <= i < servers.len() implies is_server_name((#[trigger] servers[i]).name)
        && servers[i].command.len() > 0 by {
        assert(server_problem(servers, i) is None);
    }
    assert forall|i: int, j: int| 0 <= i < j < servers.len() implies (#[trigger] servers[i]).name
        != (#[trigger] servers[j]).name by {
        assert(server_problem(servers, j) is None);
        assert(!name_repeats(servers, j));
    }
}

} // verus!
