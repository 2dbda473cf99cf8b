//! Decisions of the runner that starts `linux-wallpaperengine` with the
//! screens and options of its configuration.

use vstd::prelude::*;
use crate::ipc::string_views;
use crate::text::{chars_eq_str, chars_of, push_decimal, push_str, split_chars, split_on, string_of, views, decimal, lemma_split_on_basics};

verus! {

/// The runner's configuration (read from JSON).
pub struct RunnerConfig {
    pub silent: bool,
    pub audio_processing: bool,
    /// Screen name and wallpaper id, for each screen.
    pub screens: Vec<(String, String)>,
}

/// The configuration file the runner reads unless told otherwise.
pub fn default_runner_config(home: &str) -> (res: String)
    ensures
        res@ == home@ + "/.local/share/wallpaper.conf"@,
{
    let mut s = String::new();
    push_str(&mut s, home);
    push_str(&mut s, "/.local/share/wallpaper.conf");
    s
}

/// Why the runner's arguments were refused; `index` counts the arguments
/// after the program name from 0.
pub enum RunnerArgError {
    /// The argument is not of the form `<name>=<value>`.
    Malformed { index: usize, arg: String },
    /// The argument names no known option.
    Unknown { index: usize, arg: String },
}

impl RunnerArgError {
    /// The message the runner stops with.
    pub fn message(&self) -> (res: String)
        ensures
            res@ == (match self {
                RunnerArgError::Malformed { index, arg } => "Error with argument "@ + decimal(
                    *index as nat,
                ) + ", "@ + arg@,
                RunnerArgError::Unknown { index, arg } => "Argument "@ + decimal(*index as nat)
                    + " unknown; "@ + arg@,
            }),
    {
        let mut s = String::new();
        match self {
            RunnerArgError::Malformed { index, arg } => {
                push_str(&mut s, "Error with argument ");
                push_decimal(&mut s, *index as u64);
                push_str(&mut s, ", ");
                push_str(&mut s, arg.as_str());
            },
            RunnerArgError::Unknown { index, arg } => {
                push_str(&mut s, "Argument ");
                push_decimal(&mut s, *index as u64);
                push_str(&mut s, " unknown; ");
                push_str(&mut s, arg.as_str());
            },
        }
        s
    }
}

/// Reading the arguments after the program name, from the `i`-th on, with
/// `file` chosen so far: each must be `--config=<file>`.
pub open spec fn spec_runner_args(args: Seq<Seq<char>>, i: int, file: Seq<char>) -> Result<
    Seq<char>,
    (bool, int),
>
    decreases args.len() - i,
{
    if i >= args.len() || i < 1 {
        Ok(file)
    } else {
        let pair = split_on(args[i], '=');
        if pair.len() != 2 {
            Err((true, i - 1))
        } else if pair[0] != "--config"@ {
            Err((false, i - 1))
        } else {
            spec_runner_args(args, i + 1, pair[1])
        }
    }
}

/// The configuration file the arguments choose (`default_file` when none):
/// every argument after the program name must be `--config=<file>`, the
/// last one wins.
pub fn runner_config_file(args: &Vec<String>, default_file: String) -> (res: Result<String, RunnerArgError>)
    ensures
        match spec_runner_args(string_views(args@), 1, default_file@) {
            Ok(f) => res matches Ok(r) && r@ == f,
            Err((malformed, index)) => match res {
                Err(RunnerArgError::Malformed { index: k, arg }) => malformed && k == index
                    && arg@ == string_views(args@)[index + 1],
                Err(RunnerArgError::Unknown { index: k, arg }) => !malformed && k == index
                    && arg@ == string_views(args@)[index + 1],
                Ok(_) => false,
            },
        },
{
    let ghost sv = string_views(args@);
    let mut file = default_file;
    let mut i: usize = 1;
    if args.len() == 0 {
        return Ok(file);
    }
    while i < args.len()
        invariant
            1 <= i <= args@.len(),
            sv == string_views(args@),
            spec_runner_args(sv, 1, default_file@) == spec_runner_args(sv, i as int, file@),
        decreases args.len() - i,
    {
        assert(sv[i as int] == args@[i as int]@);
        let chars = chars_of(args[i].as_str());
        let pair = split_chars(chars.as_slice(), '=');
        proof {
            lemma_split_on_basics(chars@, '=');
        }
        if pair.len() != 2 {
            return Err(RunnerArgError::Malformed { index: i - 1, arg: args[i].clone() });
        }
        assert(views(pair@)[0] == pair@[0]@);
        assert(views(pair@)[1] == pair@[1]@);
        if !chars_eq_str(pair[0].as_slice(), "--config") {
            return Err(RunnerArgError::Unknown { index: i - 1, arg: args[i].clone() });
        }
        file = string_of(pair[1].as_slice());
        i = i + 1;
    }
    Ok(file)
}

/// The arguments `linux-wallpaperengine` gets for the screens `screens`.
pub open spec fn screen_args(screens: Seq<(String, String)>) -> Seq<Seq<char>>
    decreases screens.len(),
{
    if screens.len() == 0 {
        Seq::empty()
    } else {
        screen_args(screens.drop_last()) + seq![
            "--screen-root"@,
            screens.last().0@,
            "--bg"@,
            screens.last().1@,
        ]
    }
}

/// The arguments `linux-wallpaperengine` gets: `--silent` when silent,
/// `--no-audio-processing` without audio processing, then
/// `--screen-root <screen> --bg <wallpaper>` for each screen.
pub open spec fn engine_args(config: RunnerConfig) -> Seq<Seq<char>> {
    (if config.silent {
        seq!["--silent"@]
    } else {
        Seq::empty()
    }) + (if !config.audio_processing {
        seq!["--no-audio-processing"@]
    } else {
        Seq::empty()
    }) + screen_args(config.screens@)
}

fn push_arg(v: &mut Vec<String>, a: &str)
    ensures
        string_views(final(v)@) == string_views(old(v)@).push(a@),
{
    let mut s = String::new();
    push_str(&mut s, a);
    let ghost before = v@;
    v.push(s);
    assert(string_views(v@) =~= string_views(before).push(a@));
}

impl RunnerConfig {
    /// The arguments `linux-wallpaperengine` is started with.
    pub fn engine_arguments(&self) -> (res: Vec<String>)
        ensures
            string_views(res@) == engine_args(*self),
    {
        let mut res: Vec<String> = Vec::new();
        assert(string_views(res@) =~= Seq::<Seq<char>>::empty());
        if self.silent {
            push_arg(&mut res, "--silent");
        }
        if !self.audio_processing {
            push_arg(&mut res, "--no-audio-processing");
        }
        let ghost head = string_views(res@);
        assert(head =~= (if self.silent {
            seq!["--silent"@]
        } else {
            Seq::empty()
        }) + (if !self.audio_processing {
            seq!["--no-audio-processing"@]
        } else {
            Seq::empty()
        }));
        let mut i: usize = 0;
        assert(self.screens@.take(0) =~= Seq::<(String, String)>::empty());
        while i < self.screens.len()
            invariant
                i <= self.screens@.len(),
                string_views(res@) =~= head + screen_args(self.screens@.take(i as int)),
            decreases self.screens.len() - i,
        {
            let ghost before = string_views(res@);
            push_arg(&mut res, "--screen-root");
            push_arg(&mut res, self.screens[i].0.as_str());
            push_arg(&mut res, "--bg");
            push_arg(&mut res, self.screens[i].1.as_str());
            assert(self.screens@.take(i + 1).drop_last() =~= self.screens@.take(i as int));
            i = i + 1;
        }
        assert(self.screens@.take(self.screens@.len() as int) =~= self.screens@);
        res
    }
}

/// Whether `args` holds `--screen-root <screen> --bg <wallpaper>` for
/// `screen` from position `k` on.
pub open spec fn screen_words_at(args: Seq<Seq<char>>, k: int, screen: (String, String)) -> bool {
    &&& args[k] == "--screen-root"@
    &&& args[k + 1] == screen.0@
    &&& args[k + 2] == "--bg"@
    &&& args[k + 3] == screen.1@
}

/// The screen arguments are the four words `--screen-root <screen> --bg
/// <wallpaper>` for each screen in turn, and hold nothing else.
proof fn lemma_screen_args(screens: Seq<(String, String)>)
    ensures
        screen_args(screens).len() == 4 * screens.len(),
        forall|i: int| 0 <= i < screens.len() ==> screen_words_at(screen_args(screens), 4 * i, #[trigger] screens[i]),
        forall|x: Seq<char>| #[trigger] screen_args(screens).contains(x) ==> x == "--screen-root"@ || x
            == "--bg"@ || exists|i: int| 0 <= i < screens.len() && (#[trigger] screens[i].0@ == x
            || screens[i].1@ == x),
    decreases screens.len(),
{
    if screens.len() > 0 {
        let init = screens.drop_last();
        lemma_screen_args(init);
        let a = screen_args(init);
        let n = init.len() as int;
        let q = seq!["--screen-root"@, screens.last().0@, "--bg"@, screens.last().1@];
        assert(screen_args(screens) == a + q);
        assert forall|i: int| 0 <= i < screens.len() implies screen_words_at(screen_args(screens), 4 * i, #[trigger] screens[i]) by {
            if i < n {
                assert(init[i] == screens[i]);
                assert(screen_words_at(a, 4 * i, init[i]));
            } else {
                assert(screens[i] == screens.last());
            }
        }
        assert forall|x: Seq<char>| #[trigger] screen_args(screens).contains(x) implies x == "--screen-root"@
            || x == "--bg"@ || exists|i: int| 0 <= i < screens.len() && (#[trigger] screens[i].0@ == x
            || screens[i].1@ == x) by {
            let k = choose|k: int| 0 <= k < screen_args(screens).len() && screen_args(screens)[k] == x;
            if k < a.len() {
                assert(a.contains(x));
                if exists|i: int| 0 <= i < init.len() && (#[trigger] init[i].0@ == x || init[i].1@ == x) {
                    let i = choose|i: int| 0 <= i < init.len() && (#[trigger] init[i].0@ == x || init[i].1@ == x);
                    assert(screens[i] == init[i]);
                }
            } else {
                assert(screens[n] == screens.last());
            }
        }
    }
}

/// Law: `linux-wallpaperengine` gets `--silent` exactly when the
/// configuration is silent and `--no-audio-processing` exactly when audio
/// processing is off, each independently of the other (for screens whose
/// names and wallpapers are not those flags), and then, for each screen in
/// turn, `--screen-root <screen> --bg <wallpaper>`: one word for each flag
/// and four for each screen, nothing else.
pub proof fn law_engine_arguments_flags(config: RunnerConfig)
    requires
        forall|i: int|
            0 <= i < config.screens@.len() ==> {
                &&& (#[trigger] config.screens@[i]).0@ != "--silent"@
                &&& config.screens@[i].0@ != "--no-audio-processing"@
                &&& config.screens@[i].1@ != "--silent"@
                &&& config.screens@[i].1@ != "--no-audio-processing"@
            },
    ensures
        engine_args(config).contains("--silent"@) <==> config.silent,
        engine_args(config).contains("--no-audio-processing"@) <==> !config.audio_processing,
        engine_args(config).len() == (if config.silent { 1int } else { 0int }) + (if config.audio_processing {
            0int
        } else {
            1int
        }) + 4 * config.screens@.len(),
        forall|i: int|
            0 <= i < config.screens@.len() ==> screen_words_at(
                engine_args(config),
                (if config.silent { 1int } else { 0int }) + (if config.audio_processing { 0int } else { 1int }) + 4 * i,
                #[trigger] config.screens@[i],
            ),
{
    reveal_strlit("--silent");
    reveal_strlit("--no-audio-processing");
    reveal_strlit("--screen-root");
    reveal_strlit("--bg");
    let sc = config.screens@;
    lemma_screen_args(sc);
    let head = (if config.silent {
        seq!["--silent"@]
    } else {
        Seq::empty()
    }) + (if !config.audio_processing {
        seq!["--no-audio-processing"@]
    } else {
        Seq::empty()
    });
    let all = engine_args(config);
    let sa = screen_args(sc);
    assert(all == head + sa);
    assert("--silent"@.len() != "--no-audio-processing"@.len());
    assert("--silent"@.len() != "--screen-root"@.len());
    assert("--silent"@.len() != "--bg"@.len());
    assert("--no-audio-processing"@.len() != "--screen-root"@.len());
    assert("--no-audio-processing"@.len() != "--bg"@.len());
    assert(!sa.contains("--silent"@)) by {
        if sa.contains("--silent"@) {
            let i = choose|i: int| 0 <= i < sc.len() && (#[trigger] sc[i].0@ == "--silent"@ || sc[i].1@ == "--silent"@);
            assert(config.screens@[i] == sc[i]);
        }
    }
    assert(!sa.contains("--no-audio-processing"@)) by {
        if sa.contains("--no-audio-processing"@) {
            let i = choose|i: int| 0 <= i < sc.len() && (#[trigger] sc[i].0@ == "--no-audio-processing"@
                || sc[i].1@ == "--no-audio-processing"@);
            assert(config.screens@[i] == sc[i]);
        }
    }
    assert(all.contains("--silent"@) <==> config.silent) by {
        if all.contains("--silent"@) {
            let k = choose|k: int| 0 <= k < all.len() && all[k] == "--silent"@;
            if k >= head.len() {
                assert(sa[k - head.len()] == "--silent"@);
                assert(sa.contains("--silent"@));
            }
        }
        if config.silent {
            assert(all[0] == "--silent"@);
        }
    }
    assert(all.contains("--no-audio-processing"@) <==> !config.audio_processing) by {
        if all.contains("--no-audio-processing"@) {
            let k = choose|k: int| 0 <= k < all.len() && all[k] == "--no-audio-processing"@;
            if k >= head.len() {
                assert(sa[k - head.len()] == "--no-audio-processing"@);
                assert(sa.contains("--no-audio-processing"@));
            }
        }
        if !config.audio_processing {
            assert(all[head.len() - 1] == "--no-audio-processing"@);
        }
    }
    let flags = (if config.silent { 1int } else { 0int }) + (if config.audio_processing { 0int } else { 1int });
    assert(head.len() == flags);
    assert forall|i: int| 0 <= i < config.screens@.len() implies screen_words_at(all, flags + 4 * i, #[trigger] config.screens@[i]) by {
        assert(sc[i] == config.screens@[i]);
        assert(screen_words_at(sa, 4 * i, sc[i]));
        assert(all[flags + 4 * i] == sa[4 * i]);
        assert(all[flags + 4 * i + 1] == sa[4 * i + 1]);
        assert(all[flags + 4 * i + 2] == sa[4 * i + 2]);
        assert(all[flags + 4 * i + 3] == sa[4 * i + 3]);
    }
}

} // verus!
