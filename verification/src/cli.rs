//! The command line: compression tiers, arguments, and the choice of servers.
use vstd::prelude::*;
use vstd::string::*;

use crate::config::{spec_views, GatewayConfig, ServerSpec, SpecView};
use crate::model::{ServerView, VERSION};
use crate::router::{server_views, ServerInfo};
use crate::text::{after_prefix, begins_with, concat3, same_text, texts};

verus! {

/// The text that `--help` shows.
pub const HELP: &'static str = "mcp-token-gateway -- transparent MCP proxy

USAGE (stdio):
    mcp-token-gateway [--compression TIER] -- <CMD> [ARGS...]
    mcp-token-gateway --config <PATH>

USAGE (SSE, build with --features sse):
    mcp-token-gateway --listen 0.0.0.0:3000 --config <PATH>

OPTIONS:
    --compression none|safe|balanced|high  [default: none]
    --config <PATH>   TOML config (multi-server)
    --listen <ADDR>   bind address for SSE mode
    -v                verbose logging (-vv = trace)
    -h, --help
    -V, --version";

// ---------------------------------------------------------------------------
// Compression tiers
// ---------------------------------------------------------------------------

/// How far tool definitions are compacted.
#[derive(Debug, Clone, Copy, PartialEq, Eq, Structural)]
pub enum Compression {
    /// Definitions stay as they are.
    Off,
    /// A JSON Schema without metadata and descriptions.
    Safe,
    /// A JSON Schema without metadata, with short descriptions.
    Balanced,
    /// A signature in place of the schema.
    High,
}

/// The tier of a given name.
pub open spec fn tier_named(name: Seq<char>) -> Option<Compression> {
    if name == "none"@ {
        Some(Compression::Off)
    } else if name == "safe"@ {
        Some(Compression::Safe)
    } else if name == "balanced"@ {
        Some(Compression::Balanced)
    } else if name == "high"@ {
        Some(Compression::High)
    } else {
        None
    }
}

/// What is said of a name that is no tier's.
pub open spec fn unknown_tier(name: Seq<char>) -> Seq<char> {
    "unknown compression tier '"@ + name + "'"@
}

impl Compression {
    /// The tier of a given name, or what is wrong with the name.
    pub fn parse(s: &str) -> (r: Result<Compression, String>)
        ensures
            match r {
                Ok(tier) => tier_named(s@) == Some(tier),
                Err(e) => tier_named(s@) is None && e@ == unknown_tier(s@),
            },
    {
        if same_text(s, "none") {
            Ok(Compression::Off)
        } else if same_text(s, "safe") {
            Ok(Compression::Safe)
        } else if same_text(s, "balanced") {
            Ok(Compression::Balanced)
        } else if same_text(s, "high") {
            Ok(Compression::High)
        } else {
            Err(concat3("unknown compression tier '", s, "'"))
        }
    }
}

// ---------------------------------------------------------------------------
// Arguments
// ---------------------------------------------------------------------------

/// What the arguments ask for.
#[derive(Debug)]
pub struct Cli {
    pub compression: Option<Compression>,
    /// The path of a configuration file.
    pub config: Option<String>,
    /// The address to listen on.
    pub listen: Option<String>,
    pub verbose: u8,
    /// The command of the only server, with its arguments.
    pub command: Vec<String>,
}

/// The mathematical reading of a [`Cli`].
pub struct CliView {
    pub compression: Option<Compression>,
    pub config: Option<Seq<char>>,
    pub listen: Option<Seq<char>>,
    pub verbose: u8,
    pub command: Seq<Seq<char>>,
}

/// The reading of an optional text.
pub open spec fn optional_text(s: Option<String>) -> Option<Seq<char>> {
    match s {
        Some(s) => Some(s@),
        None => None,
    }
}

impl View for Cli {
    type V = CliView;

    open spec fn view(&self) -> CliView {
        CliView {
            compression: self.compression,
            config: optional_text(self.config),
            listen: optional_text(self.listen),
            verbose: self.verbose,
            command: texts(self.command@),
        }
    }
}

impl CliView {
    /// What no arguments ask for.
    pub open spec fn initial() -> CliView {
        CliView { compression: None, config: None, listen: None, verbose: 0, command: Seq::empty() }
    }
}

/// What to do.
#[derive(Debug)]
pub enum Request {
    /// Show the help text.
    Help,
    /// Show the version.
    Version,
    /// Run the gateway.
    Run(Cli),
}

/// The mathematical reading of what [`parse_args`] returns.
pub enum Outcome {
    Help,
    Version,
    Run(CliView),
    Refused(Seq<char>),
}

/// The reading of what [`parse_args`] returns.
pub open spec fn outcome(r: Result<Request, String>) -> Outcome {
    match r {
        Ok(Request::Help) => Outcome::Help,
        Ok(Request::Version) => Outcome::Version,
        Ok(Request::Run(cli)) => Outcome::Run(cli@),
        Err(e) => Outcome::Refused(e@),
    }
}

/// What the arguments come to once all are read: there must be either a
/// configuration file or a command.
pub open spec fn finished(cli: CliView) -> Outcome {
    if cli.config is None && cli.command.len() == 0 {
        Outcome::Refused("either --config <PATH> or -- <CMD> is required\n\n"@ + HELP@)
    } else if cli.config is Some && cli.command.len() > 0 {
        Outcome::Refused("--config and -- <CMD> are mutually exclusive"@)
    } else {
        Outcome::Run(cli)
    }
}

/// An option that takes a value, and what is said where the value is missing.
pub enum ValueOption {
    Tier,
    Config,
    Listen,
}

/// The option of a given name.
pub open spec fn value_option(arg: Seq<char>) -> Option<ValueOption> {
    if arg == "--compression"@ {
        Some(ValueOption::Tier)
    } else if arg == "--config"@ {
        Some(ValueOption::Config)
    } else if arg == "--listen"@ {
        Some(ValueOption::Listen)
    } else {
        None
    }
}

/// The option and the value of an argument of the form `--option=value`.
pub open spec fn joined_option(arg: Seq<char>) -> Option<(ValueOption, Seq<char>)> {
    if begins_with(arg, "--compression="@) {
        Some((ValueOption::Tier, arg.skip("--compression="@.len() as int)))
    } else if begins_with(arg, "--config="@) {
        Some((ValueOption::Config, arg.skip("--config="@.len() as int)))
    } else if begins_with(arg, "--listen="@) {
        Some((ValueOption::Listen, arg.skip("--listen="@.len() as int)))
    } else {
        None
    }
}

/// What is said of an option without a value.
pub open spec fn value_missing(option: ValueOption) -> Seq<char> {
    match option {
        ValueOption::Tier => "--compression needs a value"@,
        ValueOption::Config => "--config needs a path"@,
        ValueOption::Listen => "--listen needs an address"@,
    }
}

/// What the arguments ask for once an option has its value, or what is wrong with the value.
pub open spec fn with_value(cli: CliView, option: ValueOption, value: Seq<char>) -> Result<CliView, Seq<char>> {
    match option {
        ValueOption::Tier => match tier_named(value) {
            Some(tier) => Ok(CliView { compression: Some(tier), ..cli }),
            None => Err(unknown_tier(value)),
        },
        ValueOption::Config => Ok(CliView { config: Some(value), ..cli }),
        ValueOption::Listen => Ok(CliView { listen: Some(value), ..cli }),
    }
}

/// What the arguments `args` come to after others that asked for `cli`. They
/// are read from left to right, and what follows `--` is the command.
pub open spec fn reading(args: Seq<Seq<char>>, cli: CliView) -> Outcome
    decreases args.len(),
{
    if args.len() == 0 {
        finished(cli)
    } else {
        let arg = args[0];
        let rest = args.drop_first();
        if arg == "--"@ {
            finished(CliView { command: rest, ..cli })
        } else if arg == "-h"@ || arg == "--help"@ {
            Outcome::Help
        } else if arg == "-V"@ || arg == "--version"@ {
            Outcome::Version
        } else if arg == "-v"@ || arg == "--verbose"@ {
            reading(rest, CliView { verbose: cli.verbose.saturating_add(1), ..cli })
        } else if arg == "-vv"@ {
            reading(rest, CliView { verbose: cli.verbose.saturating_add(2), ..cli })
        } else {
            match value_option(arg) {
                Some(option) => if rest.len() == 0 {
                    Outcome::Refused(value_missing(option))
                } else {
                    match with_value(cli, option, rest[0]) {
                        Ok(next) => reading(rest.drop_first(), next),
                        Err(e) => Outcome::Refused(e),
                    }
                },
                None => match joined_option(arg) {
                    Some((option, value)) => match with_value(cli, option, value) {
                        Ok(next) => reading(rest, next),
                        Err(e) => Outcome::Refused(e),
                    },
                    None => Outcome::Refused("unexpected argument '"@ + arg + "'\n\n"@ + HELP@),
                },
            }
        }
    }
}

fn finish(cli: Cli) -> (r: Result<Request, String>)
    ensures
        outcome(r) == finished(cli@),
{
    if cli.config.is_none() && cli.command.len() == 0 {
        let mut e = "either --config <PATH> or -- <CMD> is required\n\n".to_owned();
        e.append(HELP);
        Err(e)
    } else if cli.config.is_some() && cli.command.len() > 0 {
        Err("--config and -- <CMD> are mutually exclusive".to_owned())
    } else {
        Ok(Request::Run(cli))
    }
}

fn find_value_option(arg: &str) -> (r: Option<ValueOption>)
    ensures
        r == value_option(arg@),
{
    if same_text(arg, "--compression") {
        Some(ValueOption::Tier)
    } else if same_text(arg, "--config") {
        Some(ValueOption::Config)
    } else if same_text(arg, "--listen") {
        Some(ValueOption::Listen)
    } else {
        None
    }
}

fn find_joined_option(arg: &str) -> (r: Option<(ValueOption, String)>)
    ensures
        match r {
            Some((option, value)) => joined_option(arg@) == Some((option, value@)),
            None => joined_option(arg@) is None,
        },
{
    if let Some(value) = after_prefix(arg, "--compression=") {
        return Some((ValueOption::Tier, value));
    }
    if let Some(value) = after_prefix(arg, "--config=") {
        return Some((ValueOption::Config, value));
    }
    if let Some(value) = after_prefix(arg, "--listen=") {
        return Some((ValueOption::Listen, value));
    }
    None
}

fn set_value(cli: Cli, option: ValueOption, value: String) -> (r: Result<Cli, String>)
    ensures
        match r {
            Ok(next) => with_value(cli@, option, value@) == Ok::<CliView, Seq<char>>(next@),
            Err(e) => with_value(cli@, option, value@) == Err::<CliView, Seq<char>>(e@),
        },
{
    let mut cli = cli;
    match option {
        ValueOption::Tier => match Compression::parse(value.as_str()) {
            Ok(tier) => {
                cli.compression = Some(tier);
                Ok(cli)
            },
            Err(e) => Err(e),
        },
        ValueOption::Config => {
            cli.config = Some(value);
            Ok(cli)
        },
        ValueOption::Listen => {
            cli.listen = Some(value);
            Ok(cli)
        },
    }
}

/// Reads the arguments, without the program's own name.
pub fn parse_args(args: &Vec<String>) -> (r: Result<Request, String>)
    ensures
        outcome(r) == reading(texts(args@), CliView::initial()),
{
    let mut cli = Cli { compression: None, config: None, listen: None, verbose: 0, command: Vec::new() };
    let ghost all = texts(args@);
    let mut i: usize = 0;
    proof {
        assert(texts(cli.command@) =~= Seq::empty());
        assert(all.skip(0) =~= all);
    }
    while i < args.len()
        invariant
            i <= args.len(),
            all == texts(args@),
            cli.command@.len() == 0,
            reading(all, CliView::initial()) == reading(all.skip(i as int), cli@),
        decreases args.len() - i,
    {
        let arg = args[i].as_str();
        let ghost rest = all.skip(i + 1);
        proof {
            assert(all.skip(i as int)[0] == arg@);
            assert(all.skip(i as int).drop_first() =~= rest);
        }
        if same_text(arg, "--") {
            let command = tail(args, i + 1);
            cli.command = command;
            return finish(cli);
        }
        if same_text(arg, "-h") || same_text(arg, "--help") {
            return Ok(Request::Help);
        }
        if same_text(arg, "-V") || same_text(arg, "--version") {
            return Ok(Request::Version);
        }
        if same_text(arg, "-v") || same_text(arg, "--verbose") {
            cli.verbose = cli.verbose.saturating_add(1);
        } else if same_text(arg, "-vv") {
            cli.verbose = cli.verbose.saturating_add(2);
        } else if let Some(option) = find_value_option(arg) {
            if i + 1 == args.len() {
                return Err(missing_value(option));
            }
            proof {
                assert(rest[0] == args@[i + 1]@);
                assert(rest.drop_first() =~= all.skip(i + 2));
            }
            let ghost before = cli@;
            match set_value(cli, option, args[i + 1].clone()) {
                Ok(next) => {
                    cli = next;
                    proof {
                        lemma_value_keeps_command(before, option, args@[i + 1]@);
                        assert(texts(cli.command@).len() == 0);
                    }
                },
                Err(e) => {
                    return Err(e);
                },
            }
            i = i + 1;
        } else if let Some((option, value)) = find_joined_option(arg) {
            let ghost before = cli@;
            match set_value(cli, option, value) {
                Ok(next) => {
                    cli = next;
                    proof {
                        lemma_value_keeps_command(before, option, value@);
                        assert(texts(cli.command@).len() == 0);
                    }
                },
                Err(e) => {
                    return Err(e);
                },
            }
        } else {
            let mut e = concat3("unexpected argument '", arg, "'\n\n");
            e.append(HELP);
            return Err(e);
        }
        i = i + 1;
    }
    finish(cli)
}

proof fn lemma_value_keeps_command(cli: CliView, option: ValueOption, value: Seq<char>)
    ensures
        with_value(cli, option, value) matches Ok(next) ==> next.command == cli.command,
{
}

fn missing_value(option: ValueOption) -> (r: String)
    ensures
        r@ == value_missing(option),
{
    match option {
        ValueOption::Tier => "--compression needs a value".to_owned(),
        ValueOption::Config => "--config needs a path".to_owned(),
        ValueOption::Listen => "--listen needs an address".to_owned(),
    }
}

/// Copies the texts from `from` on.
fn tail(args: &Vec<String>, from: usize) -> (r: Vec<String>)
    requires
        from <= args.len(),
    ensures
        texts(r@) == texts(args@).skip(from as int),
{
    let mut out: Vec<String> = Vec::new();
    let mut i: usize = from;
    while i < args.len()
        invariant
            from <= i <= args.len(),
            out@.len() == i - from,
            forall|j: int| 0 <= j < out@.len() ==> (#[trigger] out@[j])@ == args@[from + j]@,
        decreases args.len() - i,
    {
        out.push(args[i].clone());
        i = i + 1;
    }
    assert(texts(out@) =~= texts(args@).skip(from as int));
    out
}

/// How much to log.
#[derive(Debug, Clone, Copy, PartialEq, Eq, Structural)]
pub enum LogLevel {
    Info,
    Debug,
    Trace,
}

/// How much to log at a given verbosity.
pub fn log_level(verbose: u8) -> (r: LogLevel)
    ensures
        verbose == 0 ==> r == LogLevel::Info,
        verbose == 1 ==> r == LogLevel::Debug,
        verbose > 1 ==> r == LogLevel::Trace,
{
    if verbose == 0 {
        LogLevel::Info
    } else if verbose == 1 {
        LogLevel::Debug
    } else {
        LogLevel::Trace
    }
}

/// The line that `--version` shows.
pub fn version_line() -> (r: String)
    ensures
        r@ == "mcp-token-gateway "@ + VERSION@,
{
    let mut out = "mcp-token-gateway ".to_owned();
    out.append(VERSION);
    out
}

// ---------------------------------------------------------------------------
// The choice of servers
// ---------------------------------------------------------------------------

/// What a session runs with: how to start each server, what the router knows of it, and the tier.
#[derive(Debug)]
pub struct Plan {
    pub specs: Vec<ServerSpec>,
    pub infos: Vec<ServerInfo>,
    pub tier: Compression,
}

/// The tier to use: that of the command line, or else that of the
/// configuration, or else the lowest. `None` stands for a name that is no tier's.
pub open spec fn chosen_tier(cli: Option<Compression>, config: Option<Seq<char>>) -> Option<Compression> {
    match (cli, config) {
        (Some(tier), _) => Some(tier),
        (None, Some(name)) => tier_named(name),
        (None, None) => Some(Compression::Off),
    }
}

/// What the router knows of the servers of a configuration: each one's name is its prefix.
pub open spec fn prefixed(specs: Seq<SpecView>) -> Seq<ServerView> {
    specs.map_values(|s: SpecView| ServerView { name: s.name, prefix: s.name })
}

/// Chooses the servers and the tier: those of the configuration where there is
/// one, and otherwise the one server of the command line, without a prefix.
pub fn resolve(cli: &Cli, config: Option<GatewayConfig>) -> (r: Result<Plan, String>)
    requires
        config is None ==> cli.command.len() > 0,
    ensures
        match (config, r) {
            (Some(config), Ok(plan)) => {
                &&& chosen_tier(cli.compression, optional_text(config.compression)) == Some(plan.tier)
                &&& spec_views(plan.specs@) == spec_views(config.servers@)
                &&& server_views(plan.infos@) == prefixed(spec_views(config.servers@))
            },
            (Some(config), Err(e)) => {
                &&& chosen_tier(cli.compression, optional_text(config.compression)) is None
                &&& optional_text(config.compression) matches Some(name) && e@ == unknown_tier(name)
            },
            (None, Ok(plan)) => {
                let command = texts(cli.command@);
                &&& chosen_tier(cli.compression, None) == Some(plan.tier)
                &&& spec_views(plan.specs@) == seq![
                    SpecView { name: "upstream"@, command: command[0], args: command.skip(1) },
                ]
                &&& server_views(plan.infos@) == seq![ServerView { name: "upstream"@, prefix: ""@ }]
            },
            (None, Err(_)) => false,
        },
{
    match config {
        Some(config) => {
            let tier = match cli.compression {
                Some(tier) => tier,
                None => match &config.compression {
                    Some(name) => match Compression::parse(name.as_str()) {
                        Ok(tier) => tier,
                        Err(e) => {
                            return Err(e);
                        },
                    },
                    None => Compression::Off,
                },
            };
            let infos = prefix_servers(&config.servers);
            Ok(Plan { specs: config.servers, infos, tier })
        },
        None => {
            let tier = match cli.compression {
                Some(tier) => tier,
                None => Compression::Off,
            };
            let spec = ServerSpec {
                name: "upstream".to_owned(),
                command: cli.command[0].clone(),
                args: tail(&cli.command, 1),
            };
            let info = ServerInfo { name: "upstream".to_owned(), prefix: "".to_owned() };
            let mut specs: Vec<ServerSpec> = Vec::new();
            let mut infos: Vec<ServerInfo> = Vec::new();
            specs.push(spec);
            infos.push(info);
            proof {
                let command = texts(cli.command@);
                assert(spec_views(specs@) =~= seq![
                    SpecView { name: "upstream"@, command: command[0], args: command.skip(1) },
                ]);
                assert(server_views(infos@) =~= seq![ServerView { name: "upstream"@, prefix: ""@ }]);
            }
            Ok(Plan { specs, infos, tier })
        },
    }
}

fn prefix_servers(specs: &Vec<ServerSpec>) -> (r: Vec<ServerInfo>)
    ensures
        server_views(r@) == prefixed(spec_views(specs@)),
{
    let mut out: Vec<ServerInfo> = Vec::new();
    let mut i: usize = 0;
    while i < specs.len()
        invariant
            i <= specs.len(),
            out@.len() == i,
            forall|j: int| 0 <= j < i ==> (#[trigger] out@[j])@ == prefixed(spec_views(specs@))[j],
        decreases specs.len() - i,
    {
        out.push(ServerInfo { name: specs[i].name.clone(), prefix: specs[i].name.clone() });
        i = i + 1;
    }
    assert(server_views(out@) =~= prefixed(spec_views(specs@)));
    out
}

} // verus!
