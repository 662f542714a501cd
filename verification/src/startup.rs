//! Decisions at start-up: whether to go on or to start again with more
//! privilege, and whose home directory holds the user's configuration.
//!
//! The caller finds out whether the process is privileged, looks up the home
//! directories and starts the helper; what follows from what it found is
//! decided here.

use crate::text::{lemma_texts_push, texts};
use vstd::prelude::*;

verus! {

/// The program that starts another one with more privilege.
pub const ELEVATION_HELPER: &'static str = "sudo";

/// The environment variable in which the helper leaves the name of the user
/// who called it.
pub const INVOKING_USER_VARIABLE: &'static str = "SUDO_USER";

/// The name of a user's configuration file, in that user's home directory.
pub const CONFIG_FILE_NAME: &'static str = ".switchdns";

/// The exit status of this process where that of the helper is not known.
pub const DEFAULT_EXIT_CODE: i32 = 1;

/// What to do at start-up.
#[derive(Debug)]
pub enum Bootstrap {
    /// The process is privileged: go on in place.
    Continue,
    /// Start the helper with the path of this executable and then these
    /// arguments, wait for it, and exit with its status.
    Reexec(Vec<String>),
}

/// The arguments that a command line hands on: all but the first, which is
/// the program's name.
pub open spec fn passed_on(argv: Seq<Seq<char>>) -> Seq<Seq<char>> {
    if argv.len() == 0 {
        argv
    } else {
        argv.skip(1)
    }
}

/// What to do at start-up: go on where the process is privileged, else start
/// again through the helper with the arguments that `argv` hands on.
pub fn privilege_bootstrap(privileged: bool, argv: &Vec<String>) -> (plan: Bootstrap)
    ensures
        match plan {
            Bootstrap::Continue => privileged,
            Bootstrap::Reexec(args) => !privileged && texts(args@) == passed_on(texts(argv@)),
        },
{
    if privileged {
        return Bootstrap::Continue;
    }
    let mut args: Vec<String> = Vec::new();
    let mut i: usize = 1;
    if argv.len() == 0 {
        assert(texts(args@) =~= passed_on(texts(argv@)));
        return Bootstrap::Reexec(args);
    }
    assert(texts(args@) =~= texts(argv@).subrange(1, 1));
    while i < argv.len()
        invariant
            1 <= i <= argv.len(),
            texts(args@) == texts(argv@).subrange(1, i as int),
        decreases argv.len() - i,
    {
        proof {
            lemma_texts_push(args@, argv[i as int]);
            assert(texts(argv@).subrange(1, i + 1) =~= texts(argv@).subrange(1, i as int).push(
                argv[i as int]@,
            ));
        }
        args.push(argv[i].clone());
        i += 1;
    }
    assert(texts(argv@).subrange(1, argv.len() as int) =~= texts(argv@).skip(1));
    Bootstrap::Reexec(args)
}

/// The exit status of this process after the helper has ended: that of the
/// helper, or `DEFAULT_EXIT_CODE` where it has none.
pub fn child_exit_code(code: Option<i32>) -> (status: i32)
    ensures
        status == match code {
            Some(c) => c,
            None => DEFAULT_EXIT_CODE,
        },
{
    match code {
        Some(c) => c,
        None => DEFAULT_EXIT_CODE,
    }
}

/// The home directory that holds the user's configuration: that of the user
/// who called the helper, where that user is known and has one, else that of
/// the process.
pub fn user_aware_home_dir<P>(invoking_user_home: Option<P>, process_home: Option<P>) -> (home:
    Option<P>)
    ensures
        home == match invoking_user_home {
            Some(dir) => Some(dir),
            None => process_home,
        },
{
    match invoking_user_home {
        Some(dir) => Some(dir),
        None => process_home,
    }
}

} // verus!
