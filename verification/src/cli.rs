//! The command line.

use vstd::prelude::*;

verus! {

/// Where the server listens unless told otherwise.
pub const DEFAULT_ADDRESS: &'static str = "127.0.0.1:3005";

/// The configuration file unless told otherwise.
pub const DEFAULT_CONFIG: &'static str = "feeds.toml";

/// Whether an argument is a flag.
pub open spec fn is_flag(arg: Seq<char>) -> bool {
    arg.len() > 0 && arg[0] == '-'
}

/// Whether the argument at `i` is the value of a `--config` before it. What is a value is no flag
/// itself, whatever it looks like.
pub open spec fn is_value(args: Seq<Seq<char>>, i: int) -> bool
    decreases i,
{
    0 < i && args[i - 1] == "--config"@ && !is_value(args, i - 1)
}

/// Whether the argument at `i` is positional: neither a flag nor the value of one.
pub open spec fn is_positional(args: Seq<Seq<char>>, i: int) -> bool {
    0 <= i < args.len() && !is_value(args, i) && !is_flag(args[i])
}

/// Whether the argument at `i` is a `--config` that is read as a flag.
pub open spec fn is_config_flag(args: Seq<Seq<char>>, i: int) -> bool {
    0 <= i < args.len() && !is_value(args, i) && args[i] == "--config"@
}

/// The first positional argument among the first `n`.
pub open spec fn first_positional(args: Seq<Seq<char>>, n: nat) -> Option<Seq<char>>
    decreases n,
{
    if n == 0 {
        None
    } else {
        match first_positional(args, (n - 1) as nat) {
            Some(arg) => Some(arg),
            None => if is_positional(args, n - 1) {
                Some(args[n - 1])
            } else {
                None
            },
        }
    }
}

/// The value of the last `--config` among the first `n` arguments: the argument behind it, or
/// none where it stands last.
pub open spec fn last_config(args: Seq<Seq<char>>, n: nat) -> Option<Seq<char>>
    decreases n,
{
    if n == 0 {
        None
    } else if !is_config_flag(args, n - 1) {
        last_config(args, (n - 1) as nat)
    } else if n < args.len() {
        Some(args[n as int])
    } else {
        None
    }
}

/// What stands in `choice`, else `fallback`.
pub open spec fn chosen_or(choice: Option<Seq<char>>, fallback: Seq<char>) -> Seq<char> {
    match choice {
        Some(text) => text,
        None => fallback,
    }
}

/// The bind address and the configuration file: the first positional argument and the value of
/// the last `--config`; else, for the file, the one that the environment names; else the defaults.
pub open spec fn settled(args: Seq<Seq<char>>, env_config: Option<Seq<char>>) -> (
    Seq<char>,
    Seq<char>,
) {
    (
        chosen_or(first_positional(args, args.len()), DEFAULT_ADDRESS@),
        chosen_or(last_config(args, args.len()), chosen_or(env_config, DEFAULT_CONFIG@)),
    )
}

/// Whether an argument is a flag.
fn looks_like_flag(arg: &str) -> (res: bool)
    ensures
        res == is_flag(arg@),
{
    arg.unicode_len() > 0 && arg.get_char(0) == '-'
}

/// Parse CLI args: first non-flag positional is the bind address, `--config <path>`
/// (or `env_config`, the value of `GSRF_CONFIG`) selects the feeds config file.
pub fn parse_cli_args(args: &[String], env_config: Option<String>) -> (res: (String, String))
    ensures
        res.deep_view() == settled(args.deep_view(), env_config.deep_view()),
{
    proof {
        reveal_strlit("--config");
    }
    let flag: String = "--config".to_string();
    let ghost texts = args.deep_view();
    let mut address: Option<String> = None;
    let mut config: Option<String> = None;
    let mut i: usize = 0;
    while i < args.len()
        invariant
            i <= args@.len(),
            flag@ == "--config"@,
            is_flag("--config"@),
            texts == args.deep_view(),
            !is_value(texts, i as int) || i == args@.len(),
            address.deep_view() == first_positional(texts, i as nat),
            config.deep_view() == last_config(texts, i as nat),
        decreases args@.len() - i,
    {
        if args[i] == flag {
            assert(is_config_flag(texts, i as int));
            if i + 1 < args.len() {
                assert(is_value(texts, i + 1));
                config = Some(args[i + 1].clone());
                proof {
                    reveal_with_fuel(first_positional, 3);
                    reveal_with_fuel(last_config, 3);
                }
                i = i + 2;
            } else {
                config = None;
                i = i + 1;
            }
        } else {
            if address.is_none() && !looks_like_flag(args[i].as_str()) {
                address = Some(args[i].clone());
            }
            i = i + 1;
        }
    }
    let address: String = match address {
        Some(text) => text,
        None => DEFAULT_ADDRESS.to_string(),
    };
    let config: String = match config {
        Some(path) => path,
        None => match env_config {
            Some(path) => path,
            None => DEFAULT_CONFIG.to_string(),
        },
    };
    (address, config)
}

/// The first positional argument is found where it stands.
proof fn lemma_first_positional(args: Seq<Seq<char>>, i: int, n: nat)
    requires
        n <= args.len(),
        is_positional(args, i),
        forall|j: int| 0 <= j < i ==> !#[trigger] is_positional(args, j),
    ensures
        first_positional(args, n) == if i < n {
            Some(args[i])
        } else {
            None
        },
    decreases n,
{
    if n > 0 {
        lemma_first_positional(args, i, (n - 1) as nat);
        if n - 1 < i {
            assert(!is_positional(args, n - 1));
        }
    }
}

/// Where no argument is positional none is found.
proof fn lemma_no_positional(args: Seq<Seq<char>>, n: nat)
    requires
        n <= args.len(),
        forall|j: int| !#[trigger] is_positional(args, j),
    ensures
        first_positional(args, n) is None,
    decreases n,
{
    if n > 0 {
        lemma_no_positional(args, (n - 1) as nat);
        assert(!is_positional(args, n - 1));
    }
}

/// The value of the last `--config` is that of the one behind which there is no other.
proof fn lemma_last_config(args: Seq<Seq<char>>, i: int, n: nat)
    requires
        n <= args.len(),
        i < n,
        is_config_flag(args, i),
        forall|j: int| i < j ==> !#[trigger] is_config_flag(args, j),
    ensures
        last_config(args, n) == if i + 1 < args.len() {
            Some(args[i + 1])
        } else {
            None
        },
    decreases n,
{
    if i < n - 1 {
        assert(!is_config_flag(args, n - 1));
        lemma_last_config(args, i, (n - 1) as nat);
    }
}

/// Where no argument is a `--config` none is found.
proof fn lemma_no_config(args: Seq<Seq<char>>, n: nat)
    requires
        n <= args.len(),
        forall|j: int| !#[trigger] is_config_flag(args, j),
    ensures
        last_config(args, n) is None,
    decreases n,
{
    if n > 0 {
        assert(!is_config_flag(args, n - 1));
        lemma_no_config(args, (n - 1) as nat);
    }
}

/// The bind address is the first argument that is neither a flag nor the value of `--config`.
pub proof fn address_is_the_first_positional(
    args: Seq<Seq<char>>,
    env_config: Option<Seq<char>>,
    i: int,
)
    requires
        is_positional(args, i),
        forall|j: int| 0 <= j < i ==> !#[trigger] is_positional(args, j),
    ensures
        settled(args, env_config).0 == args[i],
{
    lemma_first_positional(args, i, args.len());
}

/// Where every argument is a flag or the value of `--config`, the bind address is the default.
pub proof fn address_is_the_default_otherwise(
    args: Seq<Seq<char>>,
    env_config: Option<Seq<char>>,
)
    requires
        forall|j: int| !#[trigger] is_positional(args, j),
    ensures
        settled(args, env_config).0 == DEFAULT_ADDRESS@,
{
    lemma_no_positional(args, args.len());
}

/// The last `--config` names the configuration file, whatever the environment says, if an
/// argument stands behind it.
pub proof fn last_config_flag_names_the_file(
    args: Seq<Seq<char>>,
    env_config: Option<Seq<char>>,
    i: int,
)
    requires
        is_config_flag(args, i),
        i + 1 < args.len(),
        forall|j: int| i < j ==> !#[trigger] is_config_flag(args, j),
    ensures
        settled(args, env_config).1 == args[i + 1],
{
    lemma_last_config(args, i, args.len());
}

/// Without `--config` no argument is a value.
proof fn lemma_no_values(args: Seq<Seq<char>>)
    requires
        !args.contains("--config"@),
    ensures
        forall|j: int| 0 <= j <= args.len() ==> !#[trigger] is_value(args, j),
        forall|j: int| !#[trigger] is_config_flag(args, j),
{
    assert forall|j: int| 0 <= j <= args.len() implies !#[trigger] is_value(args, j) by {
        if 0 < j {
            assert(args.contains(args[j - 1]));
        }
    }
    assert forall|j: int| !#[trigger] is_config_flag(args, j) by {
        if 0 <= j < args.len() {
            assert(args.contains(args[j]));
        }
    }
}

/// Without `--config` the first argument that is no flag is the address, and the environment names
/// the configuration file or else it is the default.
pub proof fn first_argument_is_the_address(
    args: Seq<Seq<char>>,
    env_config: Option<Seq<char>>,
    i: int,
)
    requires
        !args.contains("--config"@),
        0 <= i < args.len(),
        !is_flag(args[i]),
        forall|j: int| 0 <= j < i ==> is_flag(#[trigger] args[j]),
    ensures
        settled(args, env_config).0 == args[i],
        settled(args, env_config).1 == chosen_or(env_config, DEFAULT_CONFIG@),
{
    lemma_no_values(args);
    assert(!is_value(args, i));
    lemma_first_positional(args, i, args.len());
    lemma_no_config(args, args.len());
}

/// `--config` names the configuration file, whatever the environment says. It may stand
/// anywhere: the first of the other arguments that is no flag is the address.
pub proof fn config_flag_beats_the_environment(
    before: Seq<Seq<char>>,
    path: Seq<char>,
    after: Seq<Seq<char>>,
    env_config: Option<Seq<char>>,
    i: int,
)
    requires
        !before.contains("--config"@),
        !after.contains("--config"@),
        0 <= i < (before + after).len(),
        !is_flag((before + after)[i]),
        forall|j: int| 0 <= j < i ==> is_flag(#[trigger] (before + after)[j]),
    ensures
        settled(before + seq!["--config"@, path] + after, env_config) == (
            (before + after)[i],
            path,
        ),
{
    reveal_strlit("--config");
    let args = before + seq!["--config"@, path] + after;
    let others = before + after;
    let n = before.len() as int;
    assert forall|j: int| 0 <= j <= n implies !#[trigger] is_value(args, j) by {
        if 0 < j {
            assert(before.contains(before[j - 1]));
            assert(args[j - 1] == before[j - 1]);
        }
    }
    assert(!is_value(args, n));
    assert(args[n] == "--config"@ && args[n + 1] == path);
    assert(is_value(args, n + 1));
    assert(!is_value(args, n + 2));
    assert forall|j: int| n + 2 <= j < args.len() implies !#[trigger] is_value(args, j)
        && args[j] != "--config"@ by {
        assert(after.contains(after[j - n - 2]));
        if j > n + 2 {
            assert(after.contains(after[j - n - 3]));
            assert(args[j - 1] == after[j - n - 3]);
        }
    }
    let at = if i < n {
        i
    } else {
        i + 2
    };
    assert(args[at] == others[i]);
    assert(is_positional(args, at));
    assert forall|j: int| 0 <= j < at implies !#[trigger] is_positional(args, j) by {
        if j < n {
            assert(args[j] == others[j]);
        } else if j >= n + 2 {
            assert(args[j] == others[j - 2]);
        }
    }
    lemma_first_positional(args, at, args.len());
    assert(is_config_flag(args, n));
    assert forall|j: int| n < j implies !#[trigger] is_config_flag(args, j) by {
        if n + 2 <= j < args.len() {
            assert(!is_value(args, j));
        }
    }
    lemma_last_config(args, n, args.len());
}

/// A flag starts with a dash; what stands behind a `--config` is its value, and no flag, unless the
/// `--config` is itself a value.
pub proof fn flags_and_values(args: Seq<Seq<char>>, i: int)
    requires
        0 <= i < args.len(),
    ensures
        is_flag(args[i]) <==> args[i].len() > 0 && args[i][0] == '-',
        !is_value(args, 0),
        is_value(args, i + 1) <==> args[i] == "--config"@ && !is_value(args, i),
        is_positional(args, i) <==> !is_value(args, i) && !(args[i].len() > 0 && args[i][0]
            == '-'),
        is_config_flag(args, i) <==> !is_value(args, i) && args[i] == "--config"@,
{
}

/// Where no `--config` is followed by a value, the environment names the configuration file, and
/// where it does not either, it is `feeds.toml`.
pub proof fn the_environment_names_the_file_otherwise(
    args: Seq<Seq<char>>,
    env_config: Option<Seq<char>>,
)
    requires
        forall|j: int| !#[trigger] is_config_flag(args, j) || j == args.len() - 1,
    ensures
        settled(args, env_config).1 == match env_config {
            Some(path) => path,
            None => "feeds.toml"@,
        },
{
    if is_config_flag(args, args.len() - 1) {
        assert forall|j: int| args.len() - 1 < j implies !#[trigger] is_config_flag(args, j) by {}
        lemma_last_config(args, args.len() - 1, args.len());
    } else {
        lemma_no_config(args, args.len());
    }
}

} // verus!
