//! The command line of the full-screen browser.

use crate::cli::{asks_for_help, is_option, looks_like_option, Stop, StopView, DEFAULT_SERVER};
use crate::content::{opt_text, texts};
use crate::text::same_text;
use vstd::prelude::*;
use vstd::string::*;

verus! {

/// The arguments of the full-screen browser.
#[derive(Debug, Clone, PartialEq, Eq)]
pub struct Args {
    pub server: String,
    pub pin: Option<String>,
    pub target: Option<String>,
}

/// The mathematical value of [`Args`].
pub struct ArgsView {
    pub server: Seq<char>,
    pub pin: Option<Seq<char>>,
    pub target: Option<Seq<char>>,
}

impl View for Args {
    type V = ArgsView;

    open spec fn view(&self) -> ArgsView {
        ArgsView { server: self.server@, pin: opt_text(self.pin), target: opt_text(self.target) }
    }
}

/// What the arguments say, with what was read before them.
pub open spec fn tui_args(args: Seq<Seq<char>>, so_far: ArgsView) -> Result<ArgsView, StopView>
    decreases args.len(),
{
    if args.len() == 0 {
        Ok(so_far)
    } else if args[0] == "-h"@ || args[0] == "--help"@ {
        Err(StopView::Help)
    } else if args[0] == "--server"@ || args[0] == "--pin"@ {
        if args.len() < 2 {
            Err(StopView::Usage)
        } else if args[0] == "--server"@ {
            tui_args(args.skip(2), ArgsView { server: args[1], ..so_far })
        } else {
            tui_args(args.skip(2), ArgsView { pin: Some(args[1]), ..so_far })
        }
    } else if is_option(args[0]) {
        Err(StopView::Unknown(args[0]))
    } else {
        tui_args(args.skip(1), ArgsView { target: Some(args[0]), ..so_far })
    }
}

/// What is there without any argument.
pub open spec fn tui_defaults() -> ArgsView {
    ArgsView { server: DEFAULT_SERVER@, pin: None, target: None }
}

/// Reads the command line of the full-screen browser.
pub fn parse_args(args: &Vec<String>) -> (out: Result<Args, Stop>)
    ensures
        match out {
            Ok(a) => tui_args(texts(args@), tui_defaults()) == Ok::<ArgsView, StopView>(a@),
            Err(e) => tui_args(texts(args@), tui_defaults()) == Err::<ArgsView, StopView>(e@),
        },
{
    let ghost all = texts(args@);
    let mut found = Args { server: DEFAULT_SERVER.to_owned(), pin: None, target: None };
    let mut i: usize = 0;
    assert(all.skip(0) =~= all);
    while i < args.len()
        invariant
            i <= args@.len(),
            all == texts(args@),
            tui_args(all, tui_defaults()) == tui_args(all.skip(i as int), found@),
        decreases args@.len() - i,
    {
        let a = args[i].as_str();
        proof {
            assert(all.skip(i as int)[0] == a@);
            assert(all.skip(i as int).skip(1) =~= all.skip(i + 1));
            if i + 1 < all.len() {
                assert(all.skip(i as int)[1] == args@[i + 1]@);
                assert(all.skip(i as int).skip(2) =~= all.skip(i + 2));
            }
        }
        if asks_for_help(a) {
            return Err(Stop::Help);
        } else if same_text(a, "--server") || same_text(a, "--pin") {
            if args.len() - i < 2 {
                return Err(Stop::Usage);
            }
            if same_text(a, "--server") {
                found.server = args[i + 1].clone();
            } else {
                found.pin = Some(args[i + 1].clone());
            }
            i = i + 2;
        } else if looks_like_option(a) {
            return Err(Stop::Unknown(a.to_owned()));
        } else {
            found.target = Some(a.to_owned());
            i = i + 1;
        }
    }
    Ok(found)
}

/// Options are read one by one, each sets what it names and nothing else, and
/// the last of several counts; what is no option is the target.
pub proof fn law_tui_options(value: Seq<char>, rest: Seq<Seq<char>>, so_far: ArgsView)
    ensures
        tui_args(seq!["--server"@, value] + rest, so_far) == tui_args(
            rest,
            ArgsView { server: value, pin: so_far.pin, target: so_far.target },
        ),
        tui_args(seq!["--pin"@, value] + rest, so_far) == tui_args(
            rest,
            ArgsView { server: so_far.server, pin: Some(value), target: so_far.target },
        ),
        value.len() > 0 && value[0] != '-' ==> tui_args(seq![value] + rest, so_far) == tui_args(
            rest,
            ArgsView { server: so_far.server, pin: so_far.pin, target: Some(value) },
        ),
        tui_args(Seq::empty(), so_far) == Ok::<ArgsView, StopView>(so_far),
        tui_args(seq!["--server"@], so_far) == Err::<ArgsView, StopView>(StopView::Usage),
        tui_args(seq!["--help"@] + rest, so_far) == Err::<ArgsView, StopView>(StopView::Help),
        tui_defaults() == (ArgsView { server: "127.0.0.1:7843"@, pin: None, target: None }),
{
    reveal_strlit("--server");
    reveal_strlit("--pin");
    reveal_strlit("--help");
    reveal_strlit("-h");
    assert("--server"@.len() == 8 && "--pin"@.len() == 5 && "--help"@.len() == 6);
    assert("--server"@[0] == '-' && "--pin"@[0] == '-' && "--help"@[0] == '-' && "-h"@[0] == '-');
    assert((seq!["--server"@, value] + rest).skip(2) =~= rest);
    assert((seq!["--pin"@, value] + rest).skip(2) =~= rest);
    assert((seq![value] + rest).skip(1) =~= rest);
    assert((seq!["--server"@, value] + rest)[1] == value);
    assert((seq!["--pin"@, value] + rest)[1] == value);
    assert((seq!["--help"@] + rest)[0] == "--help"@);
    assert((seq![value] + rest)[0] == value);
}

/// An option that there is none of is refused by its name, and help is given
/// where it is asked for.
pub proof fn law_unknown_options_are_refused(
    option: Seq<char>,
    rest: Seq<Seq<char>>,
    so_far: ArgsView,
)
    requires
        option.len() > 0,
        option[0] == '-',
        option != "--server"@,
        option != "--pin"@,
    ensures
        tui_args(seq![option] + rest, so_far) == if option == "-h"@ || option == "--help"@ {
            Err::<ArgsView, StopView>(StopView::Help)
        } else {
            Err(StopView::Unknown(option))
        },
        tui_args(seq!["--pin"@], so_far) == Err::<ArgsView, StopView>(StopView::Usage),
{
    assert((seq![option] + rest)[0] == option);
    assert(seq!["--pin"@].len() == 1 && seq!["--pin"@][0] == "--pin"@);
    reveal_strlit("--pin");
    reveal_strlit("--server");
    reveal_strlit("-h");
    reveal_strlit("--help");
}

} // verus!
