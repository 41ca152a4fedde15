//! The command line of the server.

use crate::cli::{asks_for_help, Stop, StopView};
use crate::content::{opt_text, texts};
use crate::server::DEFAULT_MAX_CONNECTIONS;
use crate::text::{parse_bounded, parse_u16, parse_u64, parse_usize, same_text};
use vstd::prelude::*;
use vstd::string::*;

verus! {

/// The arguments of the server.
#[derive(Debug, Clone, PartialEq, Eq)]
pub struct ServerArgs {
    pub port: u16,
    pub site: String,
    pub dir: String,
    pub max_connections: usize,
    pub key_path: Option<String>,
    /// How long a signature holds, in seconds.
    pub record_ttl: u64,
    /// How often the pages are signed again, in seconds.
    pub resign_interval: Option<u64>,
}

/// The mathematical value of [`ServerArgs`].
pub struct ServerArgsView {
    pub port: nat,
    pub site: Seq<char>,
    pub dir: Seq<char>,
    pub max_connections: nat,
    pub key_path: Option<Seq<char>>,
    pub record_ttl: nat,
    pub resign_interval: Option<u64>,
}

impl View for ServerArgs {
    type V = ServerArgsView;

    open spec fn view(&self) -> ServerArgsView {
        ServerArgsView {
            port: self.port as nat,
            site: self.site@,
            dir: self.dir@,
            max_connections: self.max_connections as nat,
            key_path: opt_text(self.key_path),
            record_ttl: self.record_ttl as nat,
            resign_interval: self.resign_interval,
        }
    }
}

/// The arguments with the value of one option; nothing where the value is
/// wrong, or there is no such option.
pub open spec fn with_option(a: ServerArgsView, option: Seq<char>, value: Seq<char>) -> Option<
    ServerArgsView,
> {
    if option == "--port"@ {
        match parse_bounded(value, u16::MAX as nat) {
            Some(n) => Some(ServerArgsView { port: n, ..a }),
            None => None,
        }
    } else if option == "--site"@ {
        Some(ServerArgsView { site: value, ..a })
    } else if option == "--dir"@ {
        Some(ServerArgsView { dir: value, ..a })
    } else if option == "--max-connections"@ {
        match parse_bounded(value, usize::MAX as nat) {
            Some(n) => if n > 0 {
                Some(ServerArgsView { max_connections: n, ..a })
            } else {
                None
            },
            None => None,
        }
    } else if option == "--key"@ {
        Some(ServerArgsView { key_path: Some(value), ..a })
    } else if option == "--record-ttl"@ {
        match parse_bounded(value, u64::MAX as nat) {
            Some(n) => Some(ServerArgsView { record_ttl: n, ..a }),
            None => None,
        }
    } else {
        match parse_bounded(value, u64::MAX as nat) {
            Some(n) => Some(ServerArgsView { resign_interval: Some(n as u64), ..a }),
            None => None,
        }
    }
}

/// There is such an option.
pub open spec fn server_option(option: Seq<char>) -> bool {
    option == "--port"@ || option == "--site"@ || option == "--dir"@ || option
        == "--max-connections"@ || option == "--key"@ || option == "--record-ttl"@ || option
        == "--resign-interval"@
}

/// What the arguments say, with what was read before them.
pub open spec fn server_args(args: Seq<Seq<char>>, so_far: ServerArgsView) -> Result<
    ServerArgsView,
    StopView,
>
    decreases args.len(),
{
    if args.len() == 0 {
        Ok(so_far)
    } else if args[0] == "-h"@ || args[0] == "--help"@ {
        Err(StopView::Help)
    } else if !server_option(args[0]) {
        Err(StopView::Unknown(args[0]))
    } else if args.len() < 2 {
        Err(StopView::Usage)
    } else {
        match with_option(so_far, args[0], args[1]) {
            Some(next) => server_args(args.skip(2), next),
            None => Err(StopView::Usage),
        }
    }
}

/// What is there without any argument.
pub open spec fn server_defaults() -> ServerArgsView {
    ServerArgsView {
        port: 7843,
        site: "example"@,
        dir: "sites/example"@,
        max_connections: DEFAULT_MAX_CONNECTIONS as nat,
        key_path: None,
        record_ttl: 86400,
        resign_interval: None,
    }
}

/// Whether there is such an option.
fn is_server_option(a: &str) -> (yes: bool)
    ensures
        yes == server_option(a@),
{
    same_text(a, "--port") || same_text(a, "--site") || same_text(a, "--dir") || same_text(
        a,
        "--max-connections",
    ) || same_text(a, "--key") || same_text(a, "--record-ttl") || same_text(
        a,
        "--resign-interval",
    )
}

impl ServerArgs {
    /// Sets one option; tells whether its value is right.
    fn set(&mut self, option: &str, value: &str) -> (done: bool)
        requires
            server_option(option@),
        ensures
            match with_option(old(self)@, option@, value@) {
                Some(next) => done && final(self)@ == next,
                None => !done,
            },
    {
        if same_text(option, "--port") {
            match parse_u16(value) {
                Some(n) => {
                    self.port = n;
                },
                None => return false,
            }
        } else if same_text(option, "--site") {
            self.site = value.to_owned();
        } else if same_text(option, "--dir") {
            self.dir = value.to_owned();
        } else if same_text(option, "--max-connections") {
            match parse_usize(value) {
                Some(n) => {
                    if n == 0 {
                        return false;
                    }
                    self.max_connections = n;
                },
                None => return false,
            }
        } else if same_text(option, "--key") {
            self.key_path = Some(value.to_owned());
        } else if same_text(option, "--record-ttl") {
            match parse_u64(value) {
                Some(n) => {
                    self.record_ttl = n;
                },
                None => return false,
            }
        } else {
            match parse_u64(value) {
                Some(n) => {
                    self.resign_interval = Some(n);
                },
                None => return false,
            }
        }
        true
    }

    /// How often the pages are signed again: half of what a signature holds,
    /// unless set; nothing where that is zero.
    pub fn refresh_secs(&self) -> (out: Option<u64>)
        ensures
            ({
                let secs = match self.resign_interval {
                    Some(n) => n,
                    None => self.record_ttl / 2,
                };
                out == if secs == 0 {
                    None
                } else {
                    Some(secs)
                }
            }),
    {
        let secs = match self.resign_interval {
            Some(n) => n,
            None => self.record_ttl / 2,
        };
        if secs == 0 {
            None
        } else {
            Some(secs)
        }
    }
}

/// Reads the command line of the server.
pub fn parse_args(args: &Vec<String>) -> (out: Result<ServerArgs, Stop>)
    ensures
        match out {
            Ok(a) => server_args(texts(args@), server_defaults()) == Ok::<
                ServerArgsView,
                StopView,
            >(a@),
            Err(e) => server_args(texts(args@), server_defaults()) == Err::<
                ServerArgsView,
                StopView,
            >(e@),
        },
{
    let ghost all = texts(args@);
    let mut found = ServerArgs {
        port: 7843,
        site: "example".to_owned(),
        dir: "sites/example".to_owned(),
        max_connections: DEFAULT_MAX_CONNECTIONS,
        key_path: None,
        record_ttl: 86400,
        resign_interval: None,
    };
    let mut i: usize = 0;
    assert(all.skip(0) =~= all);
    while i < args.len()
        invariant
            i <= args@.len(),
            all == texts(args@),
            server_args(all, server_defaults()) == server_args(all.skip(i as int), found@),
        decreases args@.len() - i,
    {
        let a = args[i].as_str();
        proof {
            assert(all.skip(i as int)[0] == a@);
            if i + 1 < all.len() {
                assert(all.skip(i as int)[1] == args@[i + 1]@);
                assert(all.skip(i as int).skip(2) =~= all.skip(i + 2));
            }
        }
        if asks_for_help(a) {
            return Err(Stop::Help);
        }
        if !is_server_option(a) {
            return Err(Stop::Unknown(a.to_owned()));
        }
        if args.len() - i < 2 {
            return Err(Stop::Usage);
        }
        if !found.set(a, args[i + 1].as_str()) {
            return Err(Stop::Usage);
        }
        i = i + 2;
    }
    Ok(found)
}

/// Each option of the server sets what it names and nothing else; a number
/// that cannot be read or is out of range is refused.
pub proof fn law_server_options(a: ServerArgsView, value: Seq<char>)
    ensures
        with_option(a, "--site"@, value) == Some(ServerArgsView { site: value, ..a }),
        with_option(a, "--dir"@, value) == Some(ServerArgsView { dir: value, ..a }),
        with_option(a, "--key"@, value) == Some(ServerArgsView { key_path: Some(value), ..a }),
        with_option(a, "--port"@, value) == match parse_bounded(value, 65535) {
            Some(n) => Some(ServerArgsView { port: n, ..a }),
            None => None,
        },
        with_option(a, "--record-ttl"@, value) == match parse_bounded(value, u64::MAX as nat) {
            Some(n) => Some(ServerArgsView { record_ttl: n, ..a }),
            None => None,
        },
        with_option(a, "--resign-interval"@, value) == match parse_bounded(
            value,
            u64::MAX as nat,
        ) {
            Some(n) => Some(ServerArgsView { resign_interval: Some(n as u64), ..a }),
            None => None,
        },
        with_option(a, "--max-connections"@, value) == match parse_bounded(
            value,
            usize::MAX as nat,
        ) {
            Some(n) => if n > 0 {
                Some(ServerArgsView { max_connections: n, ..a })
            } else {
                None
            },
            None => None,
        },
        server_defaults() == (ServerArgsView {
            port: 7843,
            site: "example"@,
            dir: "sites/example"@,
            max_connections: 64,
            key_path: None,
            record_ttl: 86400,
            resign_interval: None,
        }),
{
    lemma_server_names();
}

proof fn lemma_server_names()
    ensures
        "--port"@.len() == 6 && "--port"@[2] == 'p',
        "--site"@.len() == 6 && "--site"@[2] == 's',
        "--dir"@.len() == 5 && "--dir"@[2] == 'd',
        "--key"@.len() == 5 && "--key"@[2] == 'k',
        "--max-connections"@.len() == 17 && "--max-connections"@[2] == 'm',
        "--record-ttl"@.len() == 12,
        "--resign-interval"@.len() == 17 && "--resign-interval"@[2] == 'r',
        "--help"@.len() == 6 && "--help"@[2] == 'h',
        "-h"@.len() == 2,
{
    reveal_strlit("--port");
    reveal_strlit("--site");
    reveal_strlit("--dir");
    reveal_strlit("--key");
    reveal_strlit("--max-connections");
    reveal_strlit("--record-ttl");
    reveal_strlit("--resign-interval");
    reveal_strlit("--help");
    reveal_strlit("-h");
}

/// Options of the server are read two by two; the last of several counts, and
/// anything else stops.
pub proof fn law_server_options_are_read_in_turn(
    option: Seq<char>,
    value: Seq<char>,
    rest: Seq<Seq<char>>,
    so_far: ServerArgsView,
)
    requires
        option == "--port"@ || option == "--site"@ || option == "--dir"@ || option == "--key"@
            || option == "--max-connections"@ || option == "--record-ttl"@ || option
            == "--resign-interval"@,
    ensures
        server_args(seq![option, value] + rest, so_far) == match with_option(
            so_far,
            option,
            value,
        ) {
            Some(next) => server_args(rest, next),
            None => Err::<ServerArgsView, StopView>(StopView::Usage),
        },
        server_args(seq![option], so_far) == Err::<ServerArgsView, StopView>(StopView::Usage),
        server_args(Seq::empty(), so_far) == Ok::<ServerArgsView, StopView>(so_far),
{
    lemma_server_names();
    assert((seq![option, value] + rest).skip(2) =~= rest);
    assert((seq![option, value] + rest)[0] == option);
    assert((seq![option, value] + rest)[1] == value);
}

/// Any other argument is refused by its name, and help is given where it is
/// asked for.
pub proof fn law_unknown_options_are_refused(
    option: Seq<char>,
    rest: Seq<Seq<char>>,
    so_far: ServerArgsView,
)
    requires
        option != "--port"@ && option != "--site"@ && option != "--dir"@ && option != "--key"@
            && option != "--max-connections"@ && option != "--record-ttl"@ && option
            != "--resign-interval"@,
    ensures
        server_args(seq![option] + rest, so_far) == if option == "-h"@ || option == "--help"@ {
            Err::<ServerArgsView, StopView>(StopView::Help)
        } else {
            Err(StopView::Unknown(option))
        },
{
    assert((seq![option] + rest)[0] == option);
}

} // verus!
