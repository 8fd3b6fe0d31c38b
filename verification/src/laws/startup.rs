//! What the command line and the configuration promise to the router.
use vstd::prelude::*;

use crate::cli::{chosen_tier, joined_option, prefixed, reading, tier_named, unknown_tier, value_option, with_value};
use crate::cli::{CliView, Compression, Outcome, ValueOption};
use crate::config::{first_problem, is_name_char, is_server_name, problem_text, server_problem, servers_valid};
use crate::config::{ProblemView, SpecView};
use crate::model::{namespaced, PREFIX_SEP};
use crate::text::begins_with;

verus! {

/// A command line that is accepted names either a configuration file or a command, never both.
pub proof fn lemma_run_has_one_source(args: Seq<Seq<char>>, cli: CliView)
    ensures
        reading(args, cli) matches Outcome::Run(c) ==> (c.config is Some <==> c.command.len() == 0),
    decreases args.len(),
{
    if args.len() > 0 {
        let arg = args[0];
        let rest = args.drop_first();
        lemma_run_has_one_source(rest, CliView { verbose: cli.verbose.saturating_add(1), ..cli });
        lemma_run_has_one_source(rest, CliView { verbose: cli.verbose.saturating_add(2), ..cli });
        if let Some(option) = value_option(arg) {
            if rest.len() > 0 {
                if let Ok(next) = with_value(cli, option, rest[0]) {
                    lemma_run_has_one_source(rest.drop_first(), next);
                }
            }
        }
        if let Some((option, value)) = joined_option(arg) {
            if let Ok(next) = with_value(cli, option, value) {
                lemma_run_has_one_source(rest, next);
            }
        }
    }
}

/// The servers of a configuration that is accepted: at least one, each with a
/// prefix of its own that is an identifier.
pub proof fn lemma_configured_prefixes(specs: Seq<SpecView>)
    requires
        servers_valid(specs),
    ensures
        prefixed(specs).len() > 0,
        forall|i: int| 0 <= i < specs.len() ==> is_server_name((#[trigger] prefixed(specs)[i]).prefix),
        forall|i: int, j: int|
            0 <= i < j < specs.len() ==> (#[trigger] prefixed(specs)[i]).prefix != (#[trigger] prefixed(
                specs,
            )[j]).prefix,
{
    assert forall|i: int| 0 <= i < specs.len() implies is_server_name((#[trigger] prefixed(specs)[i]).prefix) by {
        assert(is_server_name(specs[i].name));
    }
    assert forall|i: int, j: int| 0 <= i < j < specs.len() implies (#[trigger] prefixed(specs)[i]).prefix != (
    #[trigger] prefixed(specs)[j]).prefix by {
        assert(specs[i].name != specs[j].name);
    }
}

/// A tool's name under a server's prefix is an identifier if the tool's own
/// name is made of letters, digits and underscores.
pub proof fn lemma_namespaced_is_identifier(prefix: Seq<char>, name: Seq<char>)
    requires
        is_server_name(prefix),
        forall|i: int| 0 <= i < name.len() ==> is_name_char(#[trigger] name[i]),
    ensures
        is_server_name(namespaced(prefix, name)),
{
    reveal_strlit("__");
    let sep = PREFIX_SEP@;
    assert(sep.len() == 2 && sep[0] == '_' && sep[1] == '_');
    let whole = namespaced(prefix, name);
    assert forall|i: int| 0 <= i < whole.len() implies is_name_char(#[trigger] whole[i]) by {
        if i < prefix.len() {
            assert(whole[i] == prefix[i]);
        } else if i < prefix.len() + 2 {
            assert(whole[i] == sep[i - prefix.len()]);
        } else {
            assert(whole[i] == name[i - prefix.len() - 2]);
        }
    }
    assert(whole[0] == prefix[0]);
}

// ---------------------------------------------------------------------------
// Tiers
// ---------------------------------------------------------------------------

/// The four tiers have the names `none`, `safe`, `balanced` and `high`, and no
/// other name is a tier's.
pub proof fn lemma_names_of_tiers(name: Seq<char>)
    ensures
        tier_named("none"@) == Some(Compression::Off),
        tier_named("safe"@) == Some(Compression::Safe),
        tier_named("balanced"@) == Some(Compression::Balanced),
        tier_named("high"@) == Some(Compression::High),
        name != "none"@ && name != "safe"@ && name != "balanced"@ && name != "high"@ ==> tier_named(name) is None,
        unknown_tier(name) == "unknown compression tier '"@ + name + seq!['\''],
{
    reveal_strlit("none");
    reveal_strlit("safe");
    reveal_strlit("balanced");
    reveal_strlit("high");
    reveal_strlit("'");
    assert("none"@.len() == 4 && "none"@[0] == 'n');
    assert("safe"@.len() == 4 && "safe"@[0] == 's');
    assert("high"@.len() == 4 && "high"@[0] == 'h');
    assert("balanced"@.len() == 8);
    assert("'"@ =~= seq!['\'']);
}

/// The command line decides on the tier before the configuration does, and
/// where neither says anything nothing is compacted.
pub proof fn lemma_choice_of_tier(tier: Compression, stated: Option<Seq<char>>, name: Seq<char>)
    ensures
        chosen_tier(Some(tier), stated) == Some(tier),
        chosen_tier(None, Some(name)) == tier_named(name),
        chosen_tier(None, None) == Some(Compression::Off),
{
}

// ---------------------------------------------------------------------------
// Arguments
// ---------------------------------------------------------------------------

proof fn lemma_flags()
    ensures
        "--"@.len() == 2 && "-h"@.len() == 2 && "-V"@.len() == 2 && "-v"@.len() == 2 && "-vv"@.len() == 3,
        "--"@[1] == '-' && "-h"@[1] == 'h' && "-V"@[1] == 'V' && "-v"@[1] == 'v' && "-vv"@[1] == 'v',
        "--help"@.len() == 6 && "--version"@.len() == 9 && "--verbose"@.len() == 9,
        "--help"@[2] == 'h' && "--version"@[5] == 's' && "--verbose"@[5] == 'b',
        "--compression"@.len() == 13 && "--config"@.len() == 8 && "--listen"@.len() == 8,
        "--compression"@[2] == 'c' && "--config"@[2] == 'c' && "--listen"@[2] == 'l',
        "--config"@[5] == 'f' && "--compression"@[5] == 'p' && "--version"@[2] == 'v' && "--verbose"@[2] == 'v',
        "--help"@[1] == '-' && "--version"@[1] == '-' && "--verbose"@[1] == '-',
{
    reveal_strlit("--");
    reveal_strlit("-h");
    reveal_strlit("-V");
    reveal_strlit("-v");
    reveal_strlit("-vv");
    reveal_strlit("--help");
    reveal_strlit("--version");
    reveal_strlit("--verbose");
    reveal_strlit("--compression");
    reveal_strlit("--config");
    reveal_strlit("--listen");
}

/// The first argument decides how the reading goes on: `--` ends it with the
/// rest as the command, a request for help or the version is met at once, and
/// each `v` makes the gateway tell more.
pub proof fn lemma_flags_read(rest: Seq<Seq<char>>, cli: CliView)
    ensures
        reading(seq!["--"@] + rest, cli) == reading(Seq::empty(), CliView { command: rest, ..cli }),
        reading(seq!["-h"@] + rest, cli) == Outcome::Help,
        reading(seq!["--help"@] + rest, cli) == Outcome::Help,
        reading(seq!["-V"@] + rest, cli) == Outcome::Version,
        reading(seq!["--version"@] + rest, cli) == Outcome::Version,
        reading(seq!["-v"@] + rest, cli) == reading(rest, CliView { verbose: cli.verbose.saturating_add(1), ..cli }),
        reading(seq!["--verbose"@] + rest, cli) == reading(seq!["-v"@] + rest, cli),
        reading(seq!["-vv"@] + rest, cli) == reading(rest, CliView { verbose: cli.verbose.saturating_add(2), ..cli }),
{
    lemma_flags();
    assert((seq!["--"@] + rest).drop_first() =~= rest);
    assert((seq!["-v"@] + rest).drop_first() =~= rest);
    assert((seq!["--verbose"@] + rest).drop_first() =~= rest);
    assert((seq!["-vv"@] + rest).drop_first() =~= rest);
}

/// An option takes the argument that follows as its value, whatever that is;
/// a later one replaces an earlier one, and one without a value is refused.
pub proof fn lemma_options_read(value: Seq<char>, rest: Seq<Seq<char>>, cli: CliView)
    ensures
        reading(seq!["--config"@, value] + rest, cli) == reading(rest, CliView { config: Some(value), ..cli }),
        reading(seq!["--listen"@, value] + rest, cli) == reading(rest, CliView { listen: Some(value), ..cli }),
        tier_named(value) matches Some(tier) ==> reading(seq!["--compression"@, value] + rest, cli) == reading(
            rest,
            CliView { compression: Some(tier), ..cli },
        ),
        tier_named(value) is None ==> reading(seq!["--compression"@, value] + rest, cli) == Outcome::Refused(
            unknown_tier(value),
        ),
        reading(seq!["--config"@], cli) == Outcome::Refused("--config needs a path"@),
        reading(seq!["--listen"@], cli) == Outcome::Refused("--listen needs an address"@),
        reading(seq!["--compression"@], cli) == Outcome::Refused("--compression needs a value"@),
{
    lemma_flags();
    assert((seq!["--config"@, value] + rest).drop_first().drop_first() =~= rest);
    assert((seq!["--listen"@, value] + rest).drop_first().drop_first() =~= rest);
    assert((seq!["--compression"@, value] + rest).drop_first().drop_first() =~= rest);
    assert((seq!["--config"@, value] + rest).drop_first()[0] == value);
    assert((seq!["--listen"@, value] + rest).drop_first()[0] == value);
    assert((seq!["--compression"@, value] + rest).drop_first()[0] == value);
}

proof fn lemma_joined_flag(front: Seq<char>, value: Seq<char>)
    requires
        front == "--config="@ || front == "--listen="@ || front == "--compression="@,
    ensures
        ({
            let arg = front + value;
            &&& arg != "--"@ && arg != "-h"@ && arg != "--help"@ && arg != "-V"@ && arg != "--version"@
            &&& arg != "-v"@ && arg != "--verbose"@ && arg != "-vv"@
            &&& value_option(arg) is None
            &&& front == "--config="@ ==> joined_option(arg) == Some((ValueOption::Config, value))
            &&& front == "--listen="@ ==> joined_option(arg) == Some((ValueOption::Listen, value))
            &&& front == "--compression="@ ==> joined_option(arg) == Some((ValueOption::Tier, value))
        }),
{
    lemma_flags();
    reveal_strlit("--config=");
    reveal_strlit("--listen=");
    reveal_strlit("--compression=");
    assert("--config="@.len() == 9 && "--config="@[2] == 'c' && "--config="@[5] == 'f' && "--config="@[8] == '=');
    assert("--listen="@.len() == 9 && "--listen="@[2] == 'l' && "--listen="@[8] == '=');
    assert("--compression="@.len() == 14 && "--compression="@[2] == 'c' && "--compression="@[5] == 'p');
    assert("--compression="@[13] == '=' && "--config="@[1] == '-' && "--listen="@[1] == '-');
    assert("--compression="@[1] == '-' && "--compression="@[8] == 's');
    let arg = front + value;
    assert(arg.skip(front.len() as int) =~= value);
    assert(arg.take(front.len() as int) =~= front);
    assert forall|i: int| 0 <= i < front.len() implies arg[i] == #[trigger] front[i] by {}
    assert(arg[2] == front[2] && arg[5] == front[5] && arg[8] == front[8]);
    if front == "--config="@ {
        if begins_with(arg, "--compression="@) {
            assert(arg.take(14)[5] == arg[5]);
        }
    }
    if front == "--listen="@ {
        if begins_with(arg, "--compression="@) {
            assert(arg.take(14)[2] == arg[2]);
        }
        if begins_with(arg, "--config="@) {
            assert(arg.take(9)[2] == arg[2]);
        }
    }
}

/// An option with its value behind an equals sign is read like one with its
/// value in the next argument.
pub proof fn lemma_joined_options_read(value: Seq<char>, rest: Seq<Seq<char>>, cli: CliView)
    ensures
        reading(seq!["--config="@ + value] + rest, cli) == reading(seq!["--config"@, value] + rest, cli),
        reading(seq!["--listen="@ + value] + rest, cli) == reading(seq!["--listen"@, value] + rest, cli),
        reading(seq!["--compression="@ + value] + rest, cli) == reading(seq!["--compression"@, value] + rest, cli),
{
    lemma_options_read(value, rest, cli);
    lemma_joined_flag("--config="@, value);
    lemma_joined_flag("--listen="@, value);
    lemma_joined_flag("--compression="@, value);
    assert((seq!["--config="@ + value] + rest).drop_first() =~= rest);
    assert((seq!["--listen="@ + value] + rest).drop_first() =~= rest);
    assert((seq!["--compression="@ + value] + rest).drop_first() =~= rest);
}

/// Any other argument is refused by name.
pub proof fn lemma_unexpected_argument(arg: Seq<char>, rest: Seq<Seq<char>>, cli: CliView)
    requires
        arg != "--"@ && arg != "-h"@ && arg != "--help"@ && arg != "-V"@ && arg != "--version"@,
        arg != "-v"@ && arg != "--verbose"@ && arg != "-vv"@,
        arg != "--config"@ && arg != "--listen"@ && arg != "--compression"@,
        !begins_with(arg, "--config="@) && !begins_with(arg, "--listen="@) && !begins_with(arg, "--compression="@),
    ensures
        reading(seq![arg] + rest, cli) matches Outcome::Refused(e) && begins_with(
            e,
            "unexpected argument '"@ + arg + "'\n\n"@,
        ),
{
    let front = "unexpected argument '"@ + arg + "'\n\n"@;
    if let Outcome::Refused(e) = reading(seq![arg] + rest, cli) {
        assert(e.take(front.len() as int) =~= front);
    }
}

/// Once all arguments are read, there must be a configuration file or a
/// command, and not both; what they asked for is then run as it is.
pub proof fn lemma_end_of_arguments(cli: CliView)
    ensures
        (cli.config is Some) != (cli.command.len() > 0) ==> reading(Seq::empty(), cli) == Outcome::Run(cli),
        cli.config is Some && cli.command.len() > 0 ==> reading(Seq::empty(), cli) == Outcome::Refused(
            "--config and -- <CMD> are mutually exclusive"@,
        ),
        cli.config is None && cli.command.len() == 0 ==> (reading(Seq::empty(), cli) matches Outcome::Refused(e)
            && begins_with(e, "either --config <PATH> or -- <CMD> is required\n\n"@)),
        CliView::initial() == (CliView {
            compression: None,
            config: None,
            listen: None,
            verbose: 0,
            command: Seq::empty(),
        }),
{
    let front = "either --config <PATH> or -- <CMD> is required\n\n"@;
    if let Outcome::Refused(e) = reading(Seq::empty(), cli) {
        if cli.config is None {
            assert(e.take(front.len() as int) =~= front);
        }
    }
}

// ---------------------------------------------------------------------------
// Servers
// ---------------------------------------------------------------------------

/// Whether a character may stand in a server's name at its place: a letter, a
/// digit but in front, or an underscore.
pub open spec fn may_stand(name: Seq<char>, i: int) -> bool {
    let c = name[i];
    ||| 'a' <= c && c <= 'z'
    ||| 'A' <= c && c <= 'Z'
    ||| c == '_'
    ||| i > 0 && '0' <= c && c <= '9'
}

/// A server's name is made of ASCII letters, digits and underscores, is not
/// empty and has no digit in front.
pub proof fn lemma_names_of_servers(name: Seq<char>)
    ensures
        is_server_name(name) <==> name.len() > 0 && forall|i: int|
            0 <= i < name.len() ==> #[trigger] may_stand(name, i),
{
    if is_server_name(name) {
        assert(is_name_char(name[0]));
        assert forall|i: int| 0 <= i < name.len() implies #[trigger] may_stand(name, i) by {
            assert(is_name_char(name[i]));
        }
    }
    if name.len() > 0 && forall|i: int| 0 <= i < name.len() ==> #[trigger] may_stand(name, i) {
        assert(may_stand(name, 0));
        assert forall|i: int| 0 <= i < name.len() implies is_name_char(#[trigger] name[i]) by {
            assert(may_stand(name, i));
        }
    }
}

/// A configuration is accepted exactly if it has a server and each has a good
/// name of its own and a command.
pub proof fn lemma_accepted_configurations(specs: Seq<SpecView>)
    ensures
        servers_valid(specs) <==> {
            &&& specs.len() > 0
            &&& forall|i: int|
                0 <= i < specs.len() ==> is_server_name((#[trigger] specs[i]).name) && specs[i].command.len() > 0
            &&& forall|i: int, j: int|
                0 <= i < specs.len() && 0 <= j < specs.len() && (#[trigger] specs[i]).name == (
                #[trigger] specs[j]).name ==> i == j
        },
{
    if servers_valid(specs) {
        assert forall|i: int, j: int|
            0 <= i < specs.len() && 0 <= j < specs.len() && (#[trigger] specs[i]).name == (
            #[trigger] specs[j]).name implies i == j by {
            if i < j {
                assert(specs[i].name != specs[j].name);
            } else if j < i {
                assert(specs[j].name != specs[i].name);
            }
        }
    }
}

/// What is wrong with a server: no name, a bad name, the name of an earlier
/// one, or no command, in this order.
pub proof fn lemma_problems_of_a_server(specs: Seq<SpecView>, i: int)
    requires
        0 <= i < specs.len(),
    ensures
        ({
            let name = specs[i].name;
            let taken = exists|j: int| 0 <= j < i && (#[trigger] specs[j]).name == name;
            &&& name.len() == 0 ==> server_problem(specs, i) == Some(ProblemView::EmptyName)
            &&& name.len() > 0 && !is_server_name(name) ==> server_problem(specs, i) == Some(
                ProblemView::InvalidName(name),
            )
            &&& is_server_name(name) && taken ==> server_problem(specs, i) == Some(ProblemView::DuplicateName(name))
            &&& is_server_name(name) && !taken && specs[i].command.len() == 0 ==> server_problem(specs, i) == Some(
                ProblemView::EmptyCommand(name),
            )
            &&& is_server_name(name) && !taken && specs[i].command.len() > 0 ==> server_problem(specs, i) is None
        }),
{
}

/// The problem that is told is that of the first server that has one, and
/// there is only one such.
pub proof fn lemma_first_problem(specs: Seq<SpecView>, p: ProblemView, q: ProblemView)
    requires
        first_problem(specs, p),
    ensures
        specs.len() == 0 ==> p is NoServers,
        specs.len() > 0 ==> exists|i: int|
            {
                &&& 0 <= i < specs.len()
                &&& #[trigger] server_problem(specs, i) == Some(p)
                &&& forall|j: int| 0 <= j < i ==> #[trigger] server_problem(specs, j) is None
            },
        first_problem(specs, q) ==> p == q,
        !servers_valid(specs),
{
    if specs.len() > 0 {
        let i = choose|i: int|
            {
                &&& 0 <= i < specs.len()
                &&& #[trigger] server_problem(specs, i) == Some(p)
                &&& forall|j: int| 0 <= j < i ==> #[trigger] server_problem(specs, j) is None
            };
        if servers_valid(specs) {
            assert(is_server_name(specs[i].name));
            if exists|j: int| 0 <= j < i && (#[trigger] specs[j]).name == specs[i].name {
                let j = choose|j: int| 0 <= j < i && (#[trigger] specs[j]).name == specs[i].name;
                assert(specs[j].name != specs[i].name);
            }
        }
        if first_problem(specs, q) {
            let k = choose|k: int|
                {
                    &&& 0 <= k < specs.len()
                    &&& #[trigger] server_problem(specs, k) == Some(q)
                    &&& forall|j: int| 0 <= j < k ==> #[trigger] server_problem(specs, j) is None
                };
            assert(server_problem(specs, i) is Some);
            assert(server_problem(specs, k) is Some);
            assert(i == k);
        }
    }
}

/// What is said of each problem.
pub proof fn lemma_texts_of_problems(name: Seq<char>)
    ensures
        problem_text(ProblemView::NoServers) == "config must declare at least one [[servers]] entry"@,
        problem_text(ProblemView::EmptyName) == "server `name` must be non-empty"@,
        problem_text(ProblemView::InvalidName(name)) == "server name '"@ + name
            + "' must match [A-Za-z_][A-Za-z0-9_]* — it becomes a tool-name prefix"@,
        problem_text(ProblemView::DuplicateName(name)) == "duplicate server name: "@ + name,
        problem_text(ProblemView::EmptyCommand(name)) == "server '"@ + name + "' has empty command"@,
{
}

/// Each server of a configuration has its own name as its prefix, in order.
pub proof fn lemma_prefixes(specs: Seq<SpecView>, i: int)
    requires
        0 <= i < specs.len(),
    ensures
        prefixed(specs).len() == specs.len(),
        prefixed(specs)[i].name == specs[i].name,
        prefixed(specs)[i].prefix == specs[i].name,
{
}

} // verus!
