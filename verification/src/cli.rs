//! The command-line surface: global options (`-c`/`--config`,
//! `--self-integrity-path`), then one of the subcommands `init`
//! (`-c`/`--config`, `--with-baseline`), `baseline`, or `start`
//! (`-d`/`--daemon`). The first argument is the program name. Each option
//! takes its value as the following argument; anything unrecognized
//! refuses the whole line.

use vstd::prelude::*;
use crate::config::{opt_view, strings_view};

verus! {

/// The chosen subcommand.
pub enum Commands {
    /// Initialize monitoring: write a default configuration, optionally
    /// generating the per-job baseline files immediately.
    Init { config: String, with_baseline: bool },
    /// Generate baseline checksums for every configured job.
    Baseline,
    /// Start the monitoring process, optionally as a daemon.
    Start { daemon: bool },
}

/// The parsed command line.
pub struct Cli {
    /// Path to the configuration file; defaults to `config.yaml`.
    pub config: String,
    /// Optional path to a file holding the expected digest of this binary.
    pub self_integrity_path: Option<String>,
    pub command: Commands,
}

#[verifier::ext_equal]
pub ghost enum CommandsView {
    Init { config: Seq<char>, with_baseline: bool },
    Baseline,
    Start { daemon: bool },
}

#[verifier::ext_equal]
pub ghost struct CliView {
    pub config: Seq<char>,
    pub self_integrity_path: Option<Seq<char>>,
    pub command: CommandsView,
}

impl View for Commands {
    type V = CommandsView;

    open spec fn view(&self) -> CommandsView {
        match self {
            Commands::Init { config, with_baseline } => CommandsView::Init {
                config: config@,
                with_baseline: *with_baseline,
            },
            Commands::Baseline => CommandsView::Baseline,
            Commands::Start { daemon } => CommandsView::Start { daemon: *daemon },
        }
    }
}

impl View for Cli {
    type V = CliView;

    open spec fn view(&self) -> CliView {
        CliView {
            config: self.config@,
            self_integrity_path: opt_view(self.self_integrity_path),
            command: self.command@,
        }
    }
}

impl Cli {
    /// The configuration file path.
    pub fn config_path(&self) -> (r: &str)
        ensures
            r@ == self@.config,
    {
        self.config.as_str()
    }

    /// The self-integrity digest file, if one was named.
    pub fn self_integrity_path(&self) -> (r: Option<&str>)
        ensures
            match r {
                Some(s) => self@.self_integrity_path == Some(s@),
                None => self@.self_integrity_path is None,
            },
    {
        match &self.self_integrity_path {
            Some(s) => Some(s.as_str()),
            None => None,
        }
    }
}

/// The global options before the subcommand, folded left to right; yields
/// the config path, the self-integrity path, and the position of the
/// subcommand word.
pub open spec fn sp_globals(
    args: Seq<Seq<char>>,
    i: int,
    config: Seq<char>,
    sip: Option<Seq<char>>,
) -> Option<(Seq<char>, Option<Seq<char>>, int)>
    decreases args.len() - i,
{
    if i >= args.len() || i < 0 {
        None
    } else if args[i] == "-c"@ || args[i] == "--config"@ {
        if i + 1 < args.len() {
            sp_globals(args, i + 2, args[i + 1], sip)
        } else {
            None
        }
    } else if args[i] == "--self-integrity-path"@ {
        if i + 1 < args.len() {
            sp_globals(args, i + 2, config, Some(args[i + 1]))
        } else {
            None
        }
    } else {
        Some((config, sip, i))
    }
}

/// The options of `init`, folded left to right.
pub open spec fn sp_init_opts(
    args: Seq<Seq<char>>,
    i: int,
    config: Seq<char>,
    with_baseline: bool,
) -> Option<(Seq<char>, bool)>
    decreases args.len() - i,
{
    if i >= args.len() || i < 0 {
        Some((config, with_baseline))
    } else if args[i] == "-c"@ || args[i] == "--config"@ {
        if i + 1 < args.len() {
            sp_init_opts(args, i + 2, args[i + 1], with_baseline)
        } else {
            None
        }
    } else if args[i] == "--with-baseline"@ {
        sp_init_opts(args, i + 1, config, true)
    } else {
        None
    }
}

/// The options of `start`, folded left to right.
pub open spec fn sp_start_opts(args: Seq<Seq<char>>, i: int, daemon: bool) -> Option<bool>
    decreases args.len() - i,
{
    if i >= args.len() || i < 0 {
        Some(daemon)
    } else if args[i] == "-d"@ || args[i] == "--daemon"@ {
        sp_start_opts(args, i + 1, true)
    } else {
        None
    }
}

/// The subcommand and its options, starting at position `i`.
pub open spec fn sp_command(args: Seq<Seq<char>>, i: int) -> Option<CommandsView> {
    if !(0 <= i < args.len()) {
        None
    } else if args[i] == "init"@ {
        match sp_init_opts(args, i + 1, "config.yaml"@, false) {
            Some(r) => Some(CommandsView::Init { config: r.0, with_baseline: r.1 }),
            None => None,
        }
    } else if args[i] == "baseline"@ {
        if i + 1 == args.len() {
            Some(CommandsView::Baseline)
        } else {
            None
        }
    } else if args[i] == "start"@ {
        match sp_start_opts(args, i + 1, false) {
            Some(d) => Some(CommandsView::Start { daemon: d }),
            None => None,
        }
    } else {
        None
    }
}

/// What a whole command line denotes, the program name at position 0.
pub open spec fn sp_cli(args: Seq<Seq<char>>) -> Option<CliView> {
    if args.len() < 1 {
        None
    } else {
        match sp_globals(args, 1, "config.yaml"@, None) {
            Some(g) => match sp_command(args, g.2) {
                Some(cmd) => Some(
                    CliView { config: g.0, self_integrity_path: g.1, command: cmd },
                ),
                None => None,
            },
            None => None,
        }
    }
}

fn arg_is(args: &Vec<String>, i: usize, w: &str) -> (r: bool)
    requires
        i < args@.len(),
    ensures
        r == (strings_view(args@)[i as int] == w@),
{
    proof {
        assert(strings_view(args@)[i as int] == args@[i as int]@);
    }
    args[i].eq(&String::from_str(w))
}

/// Parse a command line. `Ok` exactly when the line fits the grammar
/// above; the error text names what was wrong.
pub fn parse(args: &Vec<String>) -> (r: Result<Cli, String>)
    ensures
        match r {
            Ok(c) => sp_cli(strings_view(args@)) == Some(c@),
            Err(_) => sp_cli(strings_view(args@)) is None,
        },
{
    let ghost av = strings_view(args@);
    proof {
        assert(av.len() == args@.len());
        assert forall|k: int| 0 <= k < av.len() implies av[k] == args@[k]@ by {}
    }
    if args.len() < 1 {
        return Err(String::from_str("missing program name"));
    }
    let mut config = String::from_str("config.yaml");
    let mut sip: Option<String> = None;
    let mut i: usize = 1;
    loop
        invariant
            av == strings_view(args@),
            av.len() == args@.len(),
            forall|k: int| 0 <= k < av.len() ==> av[k] == args@[k]@,
            1 <= i <= args@.len(),
            sp_globals(av, 1, "config.yaml"@, None) == sp_globals(
                av,
                i as int,
                config@,
                opt_view(sip),
            ),
        ensures
            i < args@.len(),
            sp_globals(av, 1, "config.yaml"@, None) == Some((config@, opt_view(sip), i as int)),
        decreases args@.len() - i,
    {
        if i >= args.len() {
            return Err(String::from_str("missing subcommand"));
        }
        if arg_is(args, i, "-c") || arg_is(args, i, "--config") {
            if i + 1 < args.len() {
                config = args[i + 1].clone();
                i = i + 2;
            } else {
                return Err(String::from_str("missing value for --config"));
            }
        } else if arg_is(args, i, "--self-integrity-path") {
            if i + 1 < args.len() {
                sip = Some(args[i + 1].clone());
                i = i + 2;
            } else {
                return Err(String::from_str("missing value for --self-integrity-path"));
            }
        } else {
            break;
        }
    }
    // `i` now points at the subcommand word.
    let ghost gpos = i as int;
    proof {
        assert(sp_globals(av, 1, "config.yaml"@, None) == Some(
            (config@, opt_view(sip), gpos),
        ));
    }
    let command: Commands;
    if arg_is(args, i, "init") {
        let mut icfg = String::from_str("config.yaml");
        let mut wb = false;
        let mut j: usize = i + 1;
        loop
            invariant
                av == strings_view(args@),
                av.len() == args@.len(),
                forall|k: int| 0 <= k < av.len() ==> av[k] == args@[k]@,
                1 <= gpos < args@.len(),
                sp_globals(av, 1, "config.yaml"@, None) == Some(
                    (config@, opt_view(sip), gpos),
                ),
                av[gpos] == "init"@,
                gpos + 1 <= j <= args@.len(),
                sp_init_opts(av, gpos + 1, "config.yaml"@, false) == sp_init_opts(
                    av,
                    j as int,
                    icfg@,
                    wb,
                ),
            ensures
                sp_init_opts(av, gpos + 1, "config.yaml"@, false) == Some((icfg@, wb)),
            decreases args@.len() - j,
        {
            if j >= args.len() {
                break;
            }
            if arg_is(args, j, "-c") || arg_is(args, j, "--config") {
                if j + 1 < args.len() {
                    icfg = args[j + 1].clone();
                    j = j + 2;
                } else {
                    return Err(String::from_str("missing value for --config"));
                }
            } else if arg_is(args, j, "--with-baseline") {
                wb = true;
                j = j + 1;
            } else {
                return Err(String::from_str("unexpected argument"));
            }
        }
        command = Commands::Init { config: icfg, with_baseline: wb };
    } else if arg_is(args, i, "baseline") {
        if i + 1 != args.len() {
            return Err(String::from_str("unexpected argument"));
        }
        command = Commands::Baseline;
    } else if arg_is(args, i, "start") {
        let mut daemon = false;
        let mut j: usize = i + 1;
        loop
            invariant
                av == strings_view(args@),
                av.len() == args@.len(),
                forall|k: int| 0 <= k < av.len() ==> av[k] == args@[k]@,
                1 <= gpos < args@.len(),
                sp_globals(av, 1, "config.yaml"@, None) == Some(
                    (config@, opt_view(sip), gpos),
                ),
                av[gpos] == "start"@,
                av[gpos] != "init"@,
                av[gpos] != "baseline"@,
                gpos + 1 <= j <= args@.len(),
                sp_start_opts(av, gpos + 1, false) == sp_start_opts(av, j as int, daemon),
            ensures
                sp_start_opts(av, gpos + 1, false) == Some(daemon),
            decreases args@.len() - j,
        {
            if j >= args.len() {
                break;
            }
            if arg_is(args, j, "-d") || arg_is(args, j, "--daemon") {
                daemon = true;
                j = j + 1;
            } else {
                return Err(String::from_str("unexpected argument"));
            }
        }
        command = Commands::Start { daemon };
    } else {
        return Err(String::from_str("unknown subcommand"));
    }
    Ok(Cli { config, self_integrity_path: sip, command })
}

} // verus!
