//! The command line of the browser that shows one page.

use crate::cli::{asks_for_help, Stop, StopView, DEFAULT_SERVER};
use crate::content::{opt_text, texts};
use crate::text::same_text;
use vstd::prelude::*;
use vstd::string::*;

verus! {

/// The arguments of the browser that shows one page.
#[derive(Debug, Clone, PartialEq, Eq)]
pub struct PageArgs {
    pub server: String,
    pub site: String,
    pub path: String,
    pub pin: Option<String>,
}

/// The mathematical value of [`PageArgs`].
pub struct PageArgsView {
    pub server: Seq<char>,
    pub site: Seq<char>,
    pub path: Seq<char>,
    pub pin: Option<Seq<char>>,
}

impl View for PageArgs {
    type V = PageArgsView;

    open spec fn view(&self) -> PageArgsView {
        PageArgsView {
            server: self.server@,
            site: self.site@,
            path: self.path@,
            pin: opt_text(self.pin),
        }
    }
}

/// What the arguments say, with what was read before them.
pub open spec fn page_args(args: Seq<Seq<char>>, so_far: PageArgsView) -> Result<
    PageArgsView,
    StopView,
>
    decreases args.len(),
{
    if args.len() == 0 {
        Ok(so_far)
    } else if args[0] == "-h"@ || args[0] == "--help"@ {
        Err(StopView::Help)
    } else if args[0] == "--server"@ || args[0] == "--site"@ || args[0] == "--path"@ || args[0]
        == "--pin"@ {
        if args.len() < 2 {
            Err(StopView::Usage)
        } else if args[0] == "--server"@ {
            page_args(args.skip(2), PageArgsView { server: args[1], ..so_far })
        } else if args[0] == "--site"@ {
            page_args(args.skip(2), PageArgsView { site: args[1], ..so_far })
        } else if args[0] == "--path"@ {
            page_args(args.skip(2), PageArgsView { path: args[1], ..so_far })
        } else {
            page_args(args.skip(2), PageArgsView { pin: Some(args[1]), ..so_far })
        }
    } else {
        Err(StopView::Unknown(args[0]))
    }
}

/// What is there without any argument.
pub open spec fn page_defaults() -> PageArgsView {
    PageArgsView { server: DEFAULT_SERVER@, site: "example"@, path: "home"@, pin: None }
}

/// Reads the command line of the browser that shows one page.
pub fn parse_args(args: &Vec<String>) -> (out: Result<PageArgs, Stop>)
    ensures
        match out {
            Ok(a) => page_args(texts(args@), page_defaults()) == Ok::<PageArgsView, StopView>(a@),
            Err(e) => page_args(texts(args@), page_defaults()) == Err::<PageArgsView, StopView>(e@),
        },
{
    let ghost all = texts(args@);
    let mut found = PageArgs {
        server: DEFAULT_SERVER.to_owned(),
        site: "example".to_owned(),
        path: "home".to_owned(),
        pin: None,
    };
    let mut i: usize = 0;
    assert(all.skip(0) =~= all);
    while i < args.len()
        invariant
            i <= args@.len(),
            all == texts(args@),
            page_args(all, page_defaults()) == page_args(all.skip(i as int), found@),
        decreases args@.len() - i,
    {
        let a = args[i].as_str();
        proof {
            assert(all.skip(i as int)[0] == a@);
            if i + 1 < all.len() {
                assert(all.skip(i as int)[1] == args@[i + 1]@);
                assert(all.skip(i as int).skip(2) =~= all.skip(i + 2));
            }
        }
        if asks_for_help(a) {
            return Err(Stop::Help);
        }
        let server = same_text(a, "--server");
        let site = same_text(a, "--site");
        let path = same_text(a, "--path");
        if !server && !site && !path && !same_text(a, "--pin") {
            return Err(Stop::Unknown(a.to_owned()));
        }
        if args.len() - i < 2 {
            return Err(Stop::Usage);
        }
        let value = args[i + 1].clone();
        if server {
            found.server = value;
        } else if site {
            found.site = value;
        } else if path {
            found.path = value;
        } else {
            found.pin = Some(value);
        }
        i = i + 2;
    }
    Ok(found)
}

/// Options are read one by one, each sets what it names and nothing else, and
/// the last of several counts; anything else stops.
pub proof fn law_page_options(value: Seq<char>, rest: Seq<Seq<char>>, so_far: PageArgsView)
    ensures
        page_args(seq!["--server"@, value] + rest, so_far) == page_args(
            rest,
            PageArgsView {
                server: value,
                site: so_far.site,
                path: so_far.path,
                pin: so_far.pin,
            },
        ),
        page_args(seq!["--site"@, value] + rest, so_far) == page_args(
            rest,
            PageArgsView {
                server: so_far.server,
                site: value,
                path: so_far.path,
                pin: so_far.pin,
            },
        ),
        page_args(seq!["--path"@, value] + rest, so_far) == page_args(
            rest,
            PageArgsView {
                server: so_far.server,
                site: so_far.site,
                path: value,
                pin: so_far.pin,
            },
        ),
        page_args(seq!["--pin"@, value] + rest, so_far) == page_args(
            rest,
            PageArgsView {
                server: so_far.server,
                site: so_far.site,
                path: so_far.path,
                pin: Some(value),
            },
        ),
        page_args(Seq::empty(), so_far) == Ok::<PageArgsView, StopView>(so_far),
        value.len() == 0 || value[0] != '-' ==> page_args(seq![value] + rest, so_far) == Err::<
            PageArgsView,
            StopView,
        >(StopView::Unknown(value)),
        page_defaults() == (PageArgsView {
            server: "127.0.0.1:7843"@,
            site: "example"@,
            path: "home"@,
            pin: None,
        }),
{
    reveal_strlit("--server");
    reveal_strlit("--site");
    reveal_strlit("--path");
    reveal_strlit("--pin");
    reveal_strlit("--help");
    reveal_strlit("-h");
    assert("--server"@.len() == 8 && "--pin"@.len() == 5 && "--help"@.len() == 6);
    assert("--site"@.len() == 6 && "--path"@.len() == 6 && "-h"@.len() == 2);
    assert("--site"@[2] == 's' && "--path"@[2] == 'p' && "--help"@[2] == 'h');
    assert("--server"@[0] == '-' && "--pin"@[0] == '-' && "--help"@[0] == '-' && "-h"@[0] == '-');
    assert("--site"@[0] == '-' && "--path"@[0] == '-');
    assert((seq!["--server"@, value] + rest).skip(2) =~= rest);
    assert((seq!["--site"@, value] + rest).skip(2) =~= rest);
    assert((seq!["--path"@, value] + rest).skip(2) =~= rest);
    assert((seq!["--pin"@, value] + rest).skip(2) =~= rest);
    assert((seq!["--server"@, value] + rest)[1] == value);
    assert((seq!["--site"@, value] + rest)[1] == value);
    assert((seq!["--path"@, value] + rest)[1] == value);
    assert((seq!["--pin"@, value] + rest)[1] == value);
    assert((seq![value] + rest)[0] == value);
}

/// Any other argument is refused by its name, and help is given where it is
/// asked for; an option without its value is an error.
pub proof fn law_unknown_options_are_refused(
    option: Seq<char>,
    rest: Seq<Seq<char>>,
    so_far: PageArgsView,
)
    ensures
        option != "--server"@ && option != "--site"@ && option != "--path"@ && option != "--pin"@
            ==> page_args(seq![option] + rest, so_far) == if option == "-h"@ || option
            == "--help"@ {
            Err::<PageArgsView, StopView>(StopView::Help)
        } else {
            Err(StopView::Unknown(option))
        },
        option == "--server"@ || option == "--site"@ || option == "--path"@ || option == "--pin"@
            ==> page_args(seq![option], so_far) == Err::<PageArgsView, StopView>(StopView::Usage),
{
    assert((seq![option] + rest)[0] == option);
    assert(seq![option].len() == 1 && seq![option][0] == option);
    reveal_strlit("--server");
    reveal_strlit("--site");
    reveal_strlit("--path");
    reveal_strlit("--pin");
    reveal_strlit("-h");
    reveal_strlit("--help");
    assert("--site"@[2] != "--help"@[2]);
    assert("--path"@[2] != "--help"@[2]);
}

} // verus!
