//! Command lines of the two clients.

use crate::headers;
use crate::lists;
use crate::mkv_reader::MkvTrackInfo;
use crate::text::same_text;
use vstd::prelude::*;

verus! {

/// The endpoint that a receiving client connects to where none is given.
pub fn default_whep_url() -> (r: &'static str)
    ensures
        r@ == default_url(),
{
    "https://customer-2y2pi15b1mgfooko.cloudflarestream.com/e94a1943c1b42fef532875db0673477c/webRTC/play"
}

/// The endpoint that a receiving client connects to where none is given.
pub open spec fn default_url() -> Seq<char> {
    "https://customer-2y2pi15b1mgfooko.cloudflarestream.com/e94a1943c1b42fef532875db0673477c/webRTC/play"@
}

/// How to run a receiving client.
#[derive(Debug)]
pub struct WhepConfig {
    pub whep_url: String,
    pub debug: bool,
    pub debug_libwebrtc: bool,
}

/// What the command line of a receiving client asks for.
#[derive(Debug)]
pub enum WhepCommand {
    Run(WhepConfig),
    Help,
    /// There is no such option.
    UnknownOption(String),
}

/// How to run a sending client.
#[derive(Debug)]
pub struct WhipConfig {
    pub whip_url: String,
    pub debug: bool,
    pub output_file: Option<String>,
}

/// What the command line of a sending client asks for.
#[derive(Debug)]
pub enum WhipCommand {
    Run(WhipConfig),
    Help,
    /// There is no such option.
    UnknownOption(String),
    /// The option for an output file comes without one.
    MissingOutput,
    /// No endpoint is given.
    MissingUrl,
}

/// Whether an argument asks for help.
pub open spec fn is_help(arg: Seq<char>) -> bool {
    arg == "-h"@ || arg == "--help"@
}

/// Whether an argument turns debugging on.
pub open spec fn is_debug(arg: Seq<char>) -> bool {
    arg == "-d"@ || arg == "--debug"@
}

/// Whether an argument says that an output file comes next.
pub open spec fn is_output(arg: Seq<char>) -> bool {
    arg == "-o"@ || arg == "--output"@
}

/// Whether an argument is an option: it starts with a dash.
pub open spec fn is_option(arg: Seq<char>) -> bool {
    arg.len() > 0 && arg[0] == '-'
}

/// Whether an argument of a receiving client ends its command line: it asks
/// for help, or is an option that there is not.
pub open spec fn ends_whep_args(arg: Seq<char>) -> bool {
    is_help(arg) || (is_option(arg) && !is_debug(arg) && arg != "-dlibwebrtc"@)
}

/// The first argument, if any, that ends the command line of a receiving
/// client.
pub open spec fn whep_args_end(args: Seq<Seq<char>>) -> Option<Seq<char>>
    decreases args.len(),
{
    if args.len() == 0 {
        None
    } else {
        match whep_args_end(args.drop_last()) {
            Some(arg) => Some(arg),
            None => if ends_whep_args(args.last()) {
                Some(args.last())
            } else {
                None
            },
        }
    }
}

/// The endpoint that arguments give: the last of those that are no options.
pub open spec fn given_url(args: Seq<Seq<char>>) -> Option<Seq<char>> {
    lists::last_of(
        args,
        |arg: Seq<char>|
            if is_option(arg) {
                None
            } else {
                Some(arg)
            },
    )
}

/// Arguments as characters.
pub open spec fn arg_texts(args: Seq<String>) -> Seq<Seq<char>> {
    args.map_values(|a: String| a@)
}

/// Whether an argument is an option.
fn is_option_text(arg: &str) -> (r: bool)
    ensures
        r == is_option(arg@),
{
    arg.unicode_len() > 0 && arg.get_char(0) == '-'
}

/// What the command line of a receiving client asks for, with text as
/// characters.
pub enum WhepOutcome {
    Run { whep_url: Seq<char>, debug: bool, debug_libwebrtc: bool },
    Help,
    UnknownOption(Seq<char>),
}

impl View for WhepCommand {
    type V = WhepOutcome;

    open spec fn view(&self) -> WhepOutcome {
        match self {
            WhepCommand::Run(config) => WhepOutcome::Run {
                whep_url: config.whep_url@,
                debug: config.debug,
                debug_libwebrtc: config.debug_libwebrtc,
            },
            WhepCommand::Help => WhepOutcome::Help,
            WhepCommand::UnknownOption(option) => WhepOutcome::UnknownOption(option@),
        }
    }
}

/// What the arguments of a receiving client ask for.
pub open spec fn whep_outcome(args: Seq<Seq<char>>) -> WhepOutcome {
    match whep_args_end(args) {
        Some(arg) => if is_help(arg) {
            WhepOutcome::Help
        } else {
            WhepOutcome::UnknownOption(arg)
        },
        None => WhepOutcome::Run {
            whep_url: lists::or_else(given_url(args), default_url()),
            debug: exists|i: int| 0 <= i < args.len() && is_debug(#[trigger] args[i]),
            debug_libwebrtc: exists|i: int|
                0 <= i < args.len() && #[trigger] args[i] == "-dlibwebrtc"@,
        },
    }
}

/// Read the command line of a receiving client. The arguments are those
/// behind the name of the program.
pub fn parse_whep_args(args: &[String]) -> (r: WhepCommand)
    ensures
        match whep_args_end(arg_texts(args@)) {
            Some(arg) => if is_help(arg) {
                r is Help
            } else {
                r matches WhepCommand::UnknownOption(option) && option@ == arg
            },
            None => r matches WhepCommand::Run(config) && {
                &&& config.whep_url@ == lists::or_else(given_url(arg_texts(args@)), default_url())
                &&& config.debug == exists|i: int|
                    0 <= i < args@.len() && is_debug(#[trigger] args@[i]@)
                &&& config.debug_libwebrtc == exists|i: int|
                    0 <= i < args@.len() && (#[trigger] args@[i])@ == "-dlibwebrtc"@
            },
        },
        r@ == whep_outcome(arg_texts(args@)),
{
    let mut whep_url = default_whep_url().to_owned();
    let mut debug = false;
    let mut debug_libwebrtc = false;
    let ghost texts = arg_texts(args@);
    let mut i: usize = 0;
    while i < args.len()
        invariant
            i <= args@.len(),
            texts == arg_texts(args@),
            whep_args_end(texts.take(i as int)) is None,
            whep_url@ == lists::or_else(given_url(texts.take(i as int)), default_url()),
            debug == exists|j: int| 0 <= j < i && is_debug(#[trigger] args@[j]@),
            debug_libwebrtc == exists|j: int|
                0 <= j < i && (#[trigger] args@[j])@ == "-dlibwebrtc"@,
        decreases args@.len() - i,
    {
        let arg = args[i].as_str();
        proof {
            assert(texts.take(i + 1).drop_last() =~= texts.take(i as int));
            assert(texts.take(i + 1).last() == arg@);
            lemma_option_texts();
            lemma_whep_end_is_kept(texts, i + 1);
        }
        if same_text(arg, "-h") || same_text(arg, "--help") {
            return WhepCommand::Help;
        } else if same_text(arg, "-d") || same_text(arg, "--debug") {
            debug = true;
            assert(is_debug(args@[i as int]@));
        } else if same_text(arg, "-dlibwebrtc") {
            debug_libwebrtc = true;
            assert(args@[i as int]@ == "-dlibwebrtc"@);
        } else if !is_option_text(arg) {
            whep_url = arg.to_owned();
        } else {
            return WhepCommand::UnknownOption(arg.to_owned());
        }
        i += 1;
    }
    assert(texts.take(i as int) =~= texts);
    proof {
        assert forall|j: int| 0 <= j < args@.len() implies #[trigger] texts[j] == args@[j]@ by {}
        if debug {
            let j = choose|j: int| 0 <= j < args@.len() && is_debug(#[trigger] args@[j]@);
            assert(is_debug(texts[j]));
        }
        if debug_libwebrtc {
            let j = choose|j: int|
                0 <= j < args@.len() && (#[trigger] args@[j])@ == "-dlibwebrtc"@;
            assert(texts[j] == "-dlibwebrtc"@);
        }
    }
    WhepCommand::Run(WhepConfig { whep_url, debug, debug_libwebrtc })
}

/// The texts of the options are different, and start with a dash.
proof fn lemma_option_texts()
    ensures
        "-h"@ != "-d"@,
        "-h"@ != "--debug"@,
        "-h"@ != "-dlibwebrtc"@,
        "-h"@ != "-o"@,
        "-h"@ != "--output"@,
        "--help"@ != "-d"@,
        "--help"@ != "--debug"@,
        "--help"@ != "-dlibwebrtc"@,
        "--help"@ != "-o"@,
        "--help"@ != "--output"@,
        "-d"@ != "-dlibwebrtc"@,
        "-d"@ != "-o"@,
        "-d"@ != "--output"@,
        "--debug"@ != "-dlibwebrtc"@,
        "--debug"@ != "-o"@,
        "--debug"@ != "--output"@,
        is_option("-h"@),
        is_option("--help"@),
        is_option("-d"@),
        is_option("--debug"@),
        is_option("-dlibwebrtc"@),
        is_option("-o"@),
        is_option("--output"@),
{
    reveal_strlit("-h");
    reveal_strlit("--help");
    reveal_strlit("-d");
    reveal_strlit("--debug");
    reveal_strlit("-dlibwebrtc");
    reveal_strlit("-o");
    reveal_strlit("--output");
    assert("-h"@[1] != "-d"@[1]);
    assert("-h"@[1] != "-o"@[1]);
    assert("-d"@[1] != "-o"@[1]);
    assert("-d"@.len() != "-dlibwebrtc"@.len());
    assert("--debug"@.len() != "-dlibwebrtc"@.len());
    assert("--output"@.len() != "--debug"@.len());
    assert("--help"@.len() != "--debug"@.len());
    assert("--help"@.len() != "--output"@.len());
}

/// An argument that ends the command line does so whatever comes behind it.
proof fn lemma_whep_end_is_kept(args: Seq<Seq<char>>, n: int)
    requires
        0 <= n <= args.len(),
    ensures
        whep_args_end(args.take(n)) is Some ==> whep_args_end(args) == whep_args_end(args.take(n)),
    decreases args.len(),
{
    if n < args.len() {
        lemma_whep_end_is_kept(args.drop_last(), n);
        assert(args.drop_last().take(n) =~= args.take(n));
    } else {
        assert(args.take(n) =~= args);
    }
}

/// What the command line of a sending client asks for, with text as
/// characters.
pub enum WhipOutcome {
    Run { whip_url: Seq<char>, debug: bool, output_file: Option<Seq<char>> },
    Help,
    UnknownOption(Seq<char>),
    MissingOutput,
    MissingUrl,
}

/// What is asked for by the arguments of a sending client from `from` on,
/// behind arguments that gave an endpoint, debugging and an output file. An
/// argument that asks for help or is in error ends the command line; the last
/// endpoint and the last output file count.
pub open spec fn whip_outcome(
    args: Seq<Seq<char>>,
    from: int,
    whip_url: Seq<char>,
    debug: bool,
    output_file: Option<Seq<char>>,
) -> WhipOutcome
    decreases args.len() - from,
{
    if from >= args.len() {
        if whip_url.len() == 0 {
            WhipOutcome::MissingUrl
        } else {
            WhipOutcome::Run { whip_url, debug, output_file }
        }
    } else {
        let arg = args[from];
        if is_help(arg) {
            WhipOutcome::Help
        } else if is_debug(arg) {
            whip_outcome(args, from + 1, whip_url, true, output_file)
        } else if is_output(arg) {
            if from + 1 < args.len() {
                whip_outcome(args, from + 2, whip_url, debug, Some(args[from + 1]))
            } else {
                WhipOutcome::MissingOutput
            }
        } else if !is_option(arg) {
            whip_outcome(args, from + 1, arg, debug, output_file)
        } else {
            WhipOutcome::UnknownOption(arg)
        }
    }
}

impl View for WhipCommand {
    type V = WhipOutcome;

    open spec fn view(&self) -> WhipOutcome {
        match self {
            WhipCommand::Run(config) => WhipOutcome::Run {
                whip_url: config.whip_url@,
                debug: config.debug,
                output_file: headers::text_of(config.output_file),
            },
            WhipCommand::Help => WhipOutcome::Help,
            WhipCommand::UnknownOption(option) => WhipOutcome::UnknownOption(option@),
            WhipCommand::MissingOutput => WhipOutcome::MissingOutput,
            WhipCommand::MissingUrl => WhipOutcome::MissingUrl,
        }
    }
}

/// Read the command line of a sending client. The arguments are those behind
/// the name of the program.
pub fn parse_whip_args(args: &[String]) -> (r: WhipCommand)
    ensures
        r@ == whip_outcome(arg_texts(args@), 0, Seq::empty(), false, None),
{
    let mut whip_url = String::new();
    let mut debug = false;
    let mut output_file: Option<String> = None;
    let ghost texts = arg_texts(args@);
    let ghost asked = whip_outcome(texts, 0, Seq::empty(), false, None);
    let n: usize = args.len();
    let mut i: usize = 0;
    assert(whip_url@ =~= Seq::empty());
    while i < n
        invariant
            i <= n,
            n == args@.len(),
            texts == arg_texts(args@),
            asked == whip_outcome(texts, 0, Seq::empty(), false, None),
            asked == whip_outcome(
                texts,
                i as int,
                whip_url@,
                debug,
                headers::text_of(output_file),
            ),
        decreases n - i,
    {
        let arg = args[i].as_str();
        proof {
            assert(texts[i as int] == arg@);
            lemma_option_texts();
        }
        if same_text(arg, "-h") || same_text(arg, "--help") {
            return WhipCommand::Help;
        } else if same_text(arg, "-d") || same_text(arg, "--debug") {
            debug = true;
            i += 1;
        } else if same_text(arg, "-o") || same_text(arg, "--output") {
            if i + 1 < n {
                assert(texts[i + 1] == args@[i + 1]@);
                output_file = Some(args[i + 1].clone());
                i += 2;
            } else {
                return WhipCommand::MissingOutput;
            }
        } else if !is_option_text(arg) {
            whip_url = arg.to_owned();
            i += 1;
        } else {
            return WhipCommand::UnknownOption(arg.to_owned());
        }
    }
    if whip_url.as_str().unicode_len() == 0 {
        return WhipCommand::MissingUrl;
    }
    WhipCommand::Run(WhipConfig { whip_url, debug, output_file })
}

/// The stream to send has no video track.
#[derive(Debug, Clone, Copy, PartialEq, Eq, Structural)]
pub struct NoVideoTrack;

impl NoVideoTrack {
    /// The error as a message.
    pub fn message(&self) -> (r: &'static str)
        ensures
            r@ == "No video track found in MKV"@,
    {
        "No video track found in MKV"
    }
}

/// Whether a picture has a size.
pub open spec fn has_size(width: u32, height: u32) -> bool {
    width > 0 && height > 0
}

/// A stream to send has to have a picture size.
pub fn check_video_track(info: &MkvTrackInfo) -> (r: Result<(), NoVideoTrack>)
    ensures
        r is Err <==> info.video_width == 0 || info.video_height == 0,
        r is Ok <==> has_size(info.video_width, info.video_height),
{
    if info.video_width == 0 || info.video_height == 0 {
        return Err(NoVideoTrack);
    }
    Ok(())
}

/// An argument of a receiving client ends its command line exactly where it asks
/// for help or starts with a dash and is none of the options.
pub proof fn options_are_known(arg: Seq<char>)
    ensures
        arg == seq!['-', 'h'] || arg == seq!['-', '-', 'h', 'e', 'l', 'p'] <==> is_help(arg),
        arg == seq!['-', 'd'] || arg == seq!['-', '-', 'd', 'e', 'b', 'u', 'g'] <==> is_debug(arg),
        arg == seq!['-', 'o'] || arg == seq!['-', '-', 'o', 'u', 't', 'p', 'u', 't'] <==> is_output(
            arg,
        ),
        arg.len() == 0 || arg[0] != '-' <==> !is_option(arg),
        is_help(arg) ==> ends_whep_args(arg),
        is_debug(arg) ==> !ends_whep_args(arg),
        arg == "-dlibwebrtc"@ ==> !ends_whep_args(arg),
        !is_option(arg) ==> !ends_whep_args(arg),
        is_option(arg) && !is_debug(arg) && arg != "-dlibwebrtc"@ ==> ends_whep_args(arg),
        is_help(arg) || is_debug(arg) || is_output(arg) ==> is_option(arg),
{
    lemma_option_texts();
    reveal_strlit("-h");
    reveal_strlit("--help");
    reveal_strlit("-d");
    reveal_strlit("--debug");
    reveal_strlit("-o");
    reveal_strlit("--output");
    assert("-h"@ =~= seq!['-', 'h']);
    assert("--help"@ =~= seq!['-', '-', 'h', 'e', 'l', 'p']);
    assert("-d"@ =~= seq!['-', 'd']);
    assert("--debug"@ =~= seq!['-', '-', 'd', 'e', 'b', 'u', 'g']);
    assert("-o"@ =~= seq!['-', 'o']);
    assert("--output"@ =~= seq!['-', '-', 'o', 'u', 't', 'p', 'u', 't']);
}

/// The first argument that ends the command line of a receiving client decides,
/// whatever stands before and behind it.
pub proof fn first_ending_argument_decides(args: Seq<Seq<char>>, i: int)
    requires
        0 <= i < args.len(),
        ends_whep_args(args[i]),
        forall|j: int| 0 <= j < i ==> !ends_whep_args(#[trigger] args[j]),
    ensures
        is_help(args[i]) ==> whep_outcome(args) == WhepOutcome::Help,
        !is_help(args[i]) ==> whep_outcome(args) == WhepOutcome::UnknownOption(args[i]),
{
    lemma_no_end(args.take(i));
    assert(args.take(i + 1).drop_last() =~= args.take(i));
    assert(args.take(i + 1).last() == args[i]);
    lemma_whep_end_is_kept(args, i + 1);
}

proof fn lemma_no_end(args: Seq<Seq<char>>)
    requires
        forall|j: int| 0 <= j < args.len() ==> !ends_whep_args(#[trigger] args[j]),
    ensures
        whep_args_end(args) is None,
    decreases args.len(),
{
    if args.len() > 0 {
        assert forall|j: int| 0 <= j < args.drop_last().len() implies !ends_whep_args(
            #[trigger] args.drop_last()[j],
        ) by {
            assert(args.drop_last()[j] == args[j]);
        }
        lemma_no_end(args.drop_last());
        assert(!ends_whep_args(args[args.len() - 1]));
    }
}

/// A command line of a receiving client that nothing ends runs it: with the last
/// argument that is no option as endpoint, or the default one where there is
/// none, and with the options that stand anywhere in it.
pub proof fn whep_options_stand_anywhere(args: Seq<Seq<char>>, url: int)
    requires
        forall|j: int| 0 <= j < args.len() ==> !ends_whep_args(#[trigger] args[j]),
    ensures
        whep_outcome(args) is Run,
        whep_outcome(args)->debug <==> exists|i: int|
            0 <= i < args.len() && is_debug(#[trigger] args[i]),
        whep_outcome(args)->debug_libwebrtc <==> exists|i: int|
            0 <= i < args.len() && #[trigger] args[i] == "-dlibwebrtc"@,
        0 <= url < args.len() && !is_option(args[url]) && (forall|j: int|
            url < j < args.len() ==> is_option(#[trigger] args[j])) ==> whep_outcome(args)->whep_url
            == args[url],
        (forall|j: int| 0 <= j < args.len() ==> is_option(#[trigger] args[j])) ==> whep_outcome(
            args,
        )->whep_url == default_url(),
{
    lemma_no_end(args);
    let value = |arg: Seq<char>|
        if is_option(arg) {
            None
        } else {
            Some(arg)
        };
    if 0 <= url < args.len() && !is_option(args[url]) && forall|j: int|
        url < j < args.len() ==> is_option(#[trigger] args[j]) {
        lists::last_value_counts(args, value, url);
    }
    if forall|j: int| 0 <= j < args.len() ==> is_option(#[trigger] args[j]) {
        lists::no_value_gives_none(args, value);
    }
}

proof fn lemma_whip_from(
    args: Seq<Seq<char>>,
    skipped: int,
    from: int,
    url: Seq<char>,
    debug: bool,
    output: Option<Seq<char>>,
)
    requires
        0 <= skipped <= from,
        skipped <= args.len(),
    ensures
        whip_outcome(args.skip(skipped), from - skipped, url, debug, output) == whip_outcome(
            args,
            from,
            url,
            debug,
            output,
        ),
    decreases args.len() - from,
{
    if from < args.len() {
        let arg = args[from];
        assert(args.skip(skipped)[from - skipped] == arg);
        if is_help(arg) {
        } else if is_debug(arg) {
            lemma_whip_from(args, skipped, from + 1, url, true, output);
        } else if is_output(arg) {
            if from + 1 < args.len() {
                assert(args.skip(skipped)[from + 1 - skipped] == args[from + 1]);
                lemma_whip_from(args, skipped, from + 2, url, debug, Some(args[from + 1]));
            }
        } else if !is_option(arg) {
            lemma_whip_from(args, skipped, from + 1, arg, debug, output);
        }
    }
}

/// What the first argument of a sending client does to the rest of its command
/// line. Help and an unknown option end it; debugging, an endpoint and an output
/// file, which is the argument behind its option whatever that is, are taken over
/// for the arguments behind them.
pub proof fn whip_arguments_are_taken_in_turn(
    arg: Seq<char>,
    rest: Seq<Seq<char>>,
    url: Seq<char>,
    debug: bool,
    output: Option<Seq<char>>,
)
    ensures
        ({
            let asked = whip_outcome(seq![arg] + rest, 0, url, debug, output);
            &&& arg == "-h"@ || arg == "--help"@ ==> asked == WhipOutcome::Help
            &&& arg == "-d"@ || arg == "--debug"@ ==> asked == whip_outcome(
                rest,
                0,
                url,
                true,
                output,
            )
            &&& (arg == "-o"@ || arg == "--output"@) && rest.len() == 0 ==> asked
                == WhipOutcome::MissingOutput
            &&& (arg == "-o"@ || arg == "--output"@) && rest.len() > 0 ==> asked == whip_outcome(
                rest.skip(1),
                0,
                url,
                debug,
                Some(rest[0]),
            )
            &&& arg.len() == 0 || arg[0] != '-' ==> asked == whip_outcome(
                rest,
                0,
                arg,
                debug,
                output,
            )
            &&& arg.len() > 0 && arg[0] == '-' && arg != "-h"@ && arg != "--help"@ && arg != "-d"@
                && arg != "--debug"@ && arg != "-o"@ && arg != "--output"@ ==> asked
                == WhipOutcome::UnknownOption(arg)
        }),
{
    let args = seq![arg] + rest;
    lemma_option_texts();
    assert(args[0] == arg);
    assert(args.skip(1) =~= rest);
    lemma_whip_from(args, 1, 1, url, true, output);
    lemma_whip_from(args, 1, 1, arg, debug, output);
    if rest.len() > 0 {
        assert(args[1] == rest[0]);
        assert(args.skip(2) =~= rest.skip(1));
        lemma_whip_from(args, 2, 2, url, debug, Some(rest[0]));
    }
}

/// At the end of its command line a sending client runs with what was given, and
/// needs an endpoint.
pub proof fn whip_needs_an_endpoint(url: Seq<char>, debug: bool, output: Option<Seq<char>>)
    ensures
        url.len() == 0 ==> whip_outcome(Seq::empty(), 0, url, debug, output)
            == WhipOutcome::MissingUrl,
        url.len() > 0 ==> whip_outcome(Seq::empty(), 0, url, debug, output) == (WhipOutcome::Run {
            whip_url: url,
            debug,
            output_file: output,
        }),
{
}

/// A picture has a size exactly where it has a pixel.
pub proof fn size_is_of_pixels(width: u32, height: u32)
    ensures
        has_size(width, height) <==> width * height > 0,
{
    if has_size(width, height) {
        assert(width * height > 0) by (nonlinear_arith)
            requires
                width > 0,
                height > 0,
        ;
    } else {
        assert(width * height == 0) by (nonlinear_arith)
            requires
                width == 0 || height == 0,
        ;
    }
}

} // verus!
