//! A session in a terminal program of the system.
use crate::gui::model::App;
use crate::gui::streams::{exec_args, selected_in, session_command, target_args};
use crate::text::{
    ascii_lower, ascii_lowercase, cat2, cat3, cat4, cat5, concat, contains_text, copy_text, occurs, opt_text,
    same_ignoring_case, split_words, texts, to_chars, trim, trimmed, words,
};
use vstd::prelude::*;
use vstd::string::*;

verus! {

// ---------------------------------------------------------------------------
// Quoting

/// Whether a character has no special meaning in a shell.
pub open spec fn shell_safe(c: char) -> bool {
    ||| 'a' <= c <= 'z'
    ||| 'A' <= c <= 'Z'
    ||| '0' <= c <= '9'
    ||| c == '-' || c == '_' || c == '=' || c == '/' || c == ',' || c == '.' || c == '+'
}

/// A character inside single quotes: a quote and an exclamation mark stand outside them.
pub open spec fn shell_quoted(c: char) -> Seq<char> {
    if c == '\'' || c == '!' {
        seq!['\'', '\\', c, '\'']
    } else {
        seq![c]
    }
}

/// A text as one word of a shell.
pub open spec fn shell_word(s: Seq<char>) -> Seq<char> {
    if s.len() > 0 && forall|i: int| 0 <= i < s.len() ==> shell_safe(#[trigger] s[i]) {
        s
    } else {
        seq!['\''] + concat(s, |c: char| shell_quoted(c)) + seq!['\'']
    }
}

/// `shell_escape::unix::escape`: a text of safe characters is left as it is; any other one
/// is put in single quotes, with quotes and exclamation marks in between.
#[verifier::external_body]
pub(crate) fn shell_escaped(s: &str) -> (r: String)
    ensures
        r@ == shell_word(s@),
{
    shell_escape::unix::escape(s.into()).into_owned()
}

/// A program and its arguments as a command line.
pub open spec fn command_line(bin: Seq<char>, args: Seq<Seq<char>>) -> Seq<char>
    decreases args.len(),
{
    if args.len() == 0 {
        bin
    } else {
        command_line(bin, args.drop_last()) + " "@ + shell_word(args.last())
    }
}

/// A program and its arguments as a command line.
pub fn args_to_cmd(bin: &str, args: &Vec<String>) -> (r: String)
    ensures
        r@ == command_line(bin@, texts(args@)),
{
    let ghost all = texts(args@);
    let mut s = copy_text(bin);
    let mut i: usize = 0;
    assert(all.take(0) =~= Seq::empty());
    while i < args.len()
        invariant
            i <= args.len(),
            all == texts(args@),
            s@ == command_line(bin@, all.take(i as int)),
        decreases args.len() - i,
    {
        assert(all.take(i + 1).drop_last() =~= all.take(i as int));
        assert(all.take(i + 1).last() == args@[i as int]@);
        let word = shell_escaped(args[i].as_str());
        s.append(" ");
        s.append(word.as_str());
        i += 1;
    }
    assert(all.take(all.len() as int) =~= all);
    s
}

/// A character inside a double-quoted text of AppleScript.
pub open spec fn script_quoted(c: char) -> Seq<char> {
    if c == '\\' {
        seq!['\\', '\\']
    } else if c == '"' {
        seq!['\\', '"']
    } else if c == '\n' {
        seq!['\\', 'n']
    } else {
        seq![c]
    }
}

/// A text inside a double-quoted text of AppleScript.
pub open spec fn script_text(s: Seq<char>) -> Seq<char> {
    concat(s, |c: char| script_quoted(c))
}

/// A text inside a double-quoted text of AppleScript.
pub fn applescript_escape(s: &str) -> (r: String)
    ensures
        r@ == script_text(s@),
{
    let ghost f = |c: char| script_quoted(c);
    let v = to_chars(s);
    let mut out = String::new();
    let mut i: usize = 0;
    assert(v@.take(0) =~= Seq::empty());
    assert(out@ =~= concat(v@.take(0), f));
    while i < v.len()
        invariant
            i <= v.len(),
            v@ == s@,
            f == (|c: char| script_quoted(c)),
            out@ == concat(v@.take(i as int), f),
        decreases v.len() - i,
    {
        assert(v@.take(i + 1).drop_last() =~= v@.take(i as int));
        assert(v@.take(i + 1).last() == v@[i as int]);
        let c = v[i];
        let ghost before = out@;
        if c == '\\' {
            out.push('\\');
            out.push('\\');
        } else if c == '"' {
            out.push('\\');
            out.push('"');
        } else if c == '\n' {
            out.push('\\');
            out.push('n');
        } else {
            out.push(c);
        }
        assert(out@ =~= before + script_quoted(c));
        i += 1;
    }
    assert(v@.take(v@.len() as int) =~= v@);
    out
}

// ---------------------------------------------------------------------------
// Launching

/// The system that the program runs on.
#[derive(Clone, Copy, Debug, PartialEq, Eq, Structural)]
pub enum Platform {
    MacOs,
    Unix,
    Windows,
}

/// One attempt to launch a terminal: a program with arguments, or a script of lines.
pub enum Launch {
    Run { program: String, args: Vec<String> },
    Script(Vec<String>),
}

/// The model of a `Launch`.
pub enum LaunchView {
    Run { program: Seq<char>, args: Seq<Seq<char>> },
    Script(Seq<Seq<char>>),
}

impl View for Launch {
    type V = LaunchView;

    open spec fn view(&self) -> LaunchView {
        match self {
            Launch::Run { program, args } => LaunchView::Run { program: program@, args: texts(args@) },
            Launch::Script(lines) => LaunchView::Script(texts(lines@)),
        }
    }
}

/// The models of a list of attempts.
pub open spec fn launch_views(v: Seq<Launch>) -> Seq<LaunchView> {
    v.map_values(|l: Launch| l@)
}

/// The command that sets the title of a terminal.
pub open spec fn title_command(title: Seq<char>) -> Seq<char> {
    "printf '\\033]0;%s\\007' "@ + shell_word(title)
}

/// The lines of a script that opens a window of iTerm and runs two commands in it.
pub open spec fn iterm_lines(app: Seq<char>, title_cmd: Seq<char>, cmd: Seq<char>) -> Seq<Seq<char>> {
    seq![
        "tell application \""@ + app + "\" to create window with default profile"@,
        "delay 0.1"@,
        "tell application \""@ + app
            + "\" to tell current session of current window to write text \""@ + script_text(title_cmd)
            + "\" newline yes"@,
        "tell application \""@ + app
            + "\" to tell current session of current window to write text \""@ + script_text(cmd)
            + "\" newline yes"@,
    ]
}

/// The attempts on macOS, by the terminal that was chosen.
pub open spec fn mac_plan(chosen: Seq<char>, args: Seq<Seq<char>>, title: Seq<char>) -> Seq<LaunchView> {
    let low = ascii_lower(chosen);
    let cmd = command_line("kubectl"@, args);
    let title_cmd = title_command(title);
    if low == ascii_lower("iterm"@) || low == ascii_lower("iterm2"@) {
        seq![
            LaunchView::Script(iterm_lines("iTerm2"@, title_cmd, cmd)),
            LaunchView::Script(iterm_lines("iTerm"@, title_cmd, cmd)),
        ]
    } else if low == ascii_lower("terminal"@) {
        seq![
            LaunchView::Script(
                seq![
                    "tell application \"Terminal\" to do script \""@ + script_text(title_cmd) + "\""@,
                    "tell application \"Terminal\" to do script \""@ + script_text(cmd) + "\""@,
                ],
            ),
        ]
    } else if occurs(low, "ghostty"@) {
        seq![
            LaunchView::Run {
                program: "ghostty"@,
                args: words(
                    "--new-window --execute /bin/sh -- -lc "@ + shell_word(title_cmd + "; "@ + cmd),
                ),
            },
            LaunchView::Run {
                program: "ghostty"@,
                args: seq!["--new-window"@, "--"@, "kubectl"@] + args,
            },
            LaunchView::Run {
                program: "open"@,
                args: seq![
                    "-n"@,
                    "-a"@,
                    "Ghostty"@,
                    "--args"@,
                    "--new-window"@,
                    "--execute"@,
                    "/bin/sh"@,
                    "--"@,
                    "-lc"@,
                    title_cmd + "; "@ + cmd,
                ],
            },
            LaunchView::Run {
                program: "open"@,
                args: seq!["-n"@, "-a"@, "Ghostty"@, "--args"@, "--"@, "kubectl"@] + args,
            },
        ]
    } else if low == ascii_lower("alacritty"@) {
        seq![LaunchView::Run { program: "alacritty"@, args: seq!["-e"@, "kubectl"@] + args }]
    } else {
        seq![
            LaunchView::Run {
                program: "open"@,
                args: seq!["-n"@, "-a"@, chosen, "--args"@, "--"@, "kubectl"@] + args,
            },
        ]
    }
}

/// The attempts to launch a terminal, in order, until one succeeds.
pub open spec fn launch_plan(p: Platform, chosen: Seq<char>, args: Seq<Seq<char>>, title: Seq<char>) -> Seq<LaunchView> {
    match p {
        Platform::MacOs => mac_plan(chosen, args, title),
        Platform::Unix => seq![
            LaunchView::Run { program: chosen, args: seq!["-e"@, "kubectl"@] + args },
            LaunchView::Run { program: chosen, args: seq!["--"@, "kubectl"@] + args },
        ],
        Platform::Windows => if ascii_lower(chosen) == ascii_lower("wt.exe"@) {
            seq![LaunchView::Run { program: "wt.exe"@, args: seq!["nt"@, "kubectl"@] + args }]
        } else {
            seq![LaunchView::Run { program: chosen, args: seq!["kubectl"@] + args }]
        },
    }
}

fn run_with(program: &str, lead: Vec<&str>, args: &Vec<String>) -> (r: Launch)
    ensures
        r@ == (LaunchView::Run { program: program@, args: lead@.map_values(|s: &str| s@) + texts(args@) }),
{
    let ghost lv = lead@.map_values(|s: &str| s@);
    let ghost av = texts(args@);
    let mut out: Vec<String> = Vec::new();
    let mut i: usize = 0;
    while i < lead.len()
        invariant
            i <= lead.len(),
            lv == lead@.map_values(|s: &str| s@),
            out@.len() == i,
            forall|k: int| 0 <= k < i ==> (#[trigger] out@[k])@ == lv[k],
        decreases lead.len() - i,
    {
        out.push(copy_text(lead[i]));
        i += 1;
    }
    assert(texts(out@) =~= lv);
    let mut j: usize = 0;
    assert(lv + av.take(0) =~= lv);
    while j < args.len()
        invariant
            j <= args.len(),
            av == texts(args@),
            texts(out@) == lv + av.take(j as int),
        decreases args.len() - j,
    {
        let ghost before = texts(out@);
        assert(av[j as int] == args@[j as int]@);
        out.push(args[j].clone());
        assert(texts(out@) =~= before.push(av[j as int]));
        assert(texts(out@) =~= lv + av.take(j + 1));
        j += 1;
    }
    assert(av.take(av.len() as int) =~= av);
    Launch::Run { program: copy_text(program), args: out }
}

fn iterm_script(app: &str, title_cmd: &str, cmd: &str) -> (r: Launch)
    ensures
        r@ == LaunchView::Script(iterm_lines(app@, title_cmd@, cmd@)),
{
    let t = applescript_escape(title_cmd);
    let c = applescript_escape(cmd);
    let mut lines: Vec<String> = Vec::new();
    lines.push(cat3("tell application \"", app, "\" to create window with default profile"));
    lines.push(copy_text("delay 0.1"));
    lines.push(
        cat5(
            "tell application \"",
            app,
            "\" to tell current session of current window to write text \"",
            t.as_str(),
            "\" newline yes",
        ),
    );
    lines.push(
        cat5(
            "tell application \"",
            app,
            "\" to tell current session of current window to write text \"",
            c.as_str(),
            "\" newline yes",
        ),
    );
    assert(texts(lines@) =~= iterm_lines(app@, title_cmd@, cmd@));
    Launch::Script(lines)
}

fn plan_mac(chosen: &str, args: &Vec<String>, title: &str) -> (r: Vec<Launch>)
    ensures
        launch_views(r@) == mac_plan(chosen@, texts(args@), title@),
{
    let cmd = args_to_cmd("kubectl", args);
    let word = shell_escaped(title);
    let title_cmd = cat2("printf '\\033]0;%s\\007' ", word.as_str());
    let low = ascii_lowercase(chosen);
    let mut out: Vec<Launch> = Vec::new();
    let ghost want = mac_plan(chosen@, texts(args@), title@);
    if same_ignoring_case(chosen, "iterm") || same_ignoring_case(chosen, "iterm2") {
        out.push(iterm_script("iTerm2", title_cmd.as_str(), cmd.as_str()));
        out.push(iterm_script("iTerm", title_cmd.as_str(), cmd.as_str()));
    } else if same_ignoring_case(chosen, "terminal") {
        let t = applescript_escape(title_cmd.as_str());
        let c = applescript_escape(cmd.as_str());
        let mut lines: Vec<String> = Vec::new();
        lines.push(cat3("tell application \"Terminal\" to do script \"", t.as_str(), "\""));
        lines.push(cat3("tell application \"Terminal\" to do script \"", c.as_str(), "\""));
        assert(texts(lines@) =~= seq![
            "tell application \"Terminal\" to do script \""@ + script_text(title_cmd@) + "\""@,
            "tell application \"Terminal\" to do script \""@ + script_text(cmd@) + "\""@,
        ]);
        out.push(Launch::Script(lines));
    } else if contains_text(low.as_str(), "ghostty") {
        let both = cat3(title_cmd.as_str(), "; ", cmd.as_str());
        let quoted = shell_escaped(both.as_str());
        let line = cat2("--new-window --execute /bin/sh -- -lc ", quoted.as_str());
        out.push(Launch::Run { program: copy_text("ghostty"), args: split_words(line.as_str()) });
        let a = run_with("ghostty", vec!["--new-window", "--", "kubectl"], args);
        out.push(a);
        let none: Vec<String> = Vec::new();
        let b = run_with(
            "open",
            vec![
                "-n",
                "-a",
                "Ghostty",
                "--args",
                "--new-window",
                "--execute",
                "/bin/sh",
                "--",
                "-lc",
                both.as_str(),
            ],
            &none,
        );
        out.push(b);
        let c = run_with("open", vec!["-n", "-a", "Ghostty", "--args", "--", "kubectl"], args);
        out.push(c);
        proof {
            assert(want[1]->args =~= a@->args);
            assert(want[2]->args =~= b@->args);
            assert(want[3]->args =~= c@->args);
        }
    } else if same_ignoring_case(chosen, "alacritty") {
        let a = run_with("alacritty", vec!["-e", "kubectl"], args);
        out.push(a);
        proof {
            assert(want[0]->args =~= a@->args);
        }
    } else {
        let a = run_with("open", vec!["-n", "-a", chosen, "--args", "--", "kubectl"], args);
        out.push(a);
        proof {
            assert(want[0]->args =~= a@->args);
        }
    }
    assert(launch_views(out@) =~= want);
    out
}

/// The attempts to launch a terminal, in order, until one succeeds.
pub fn plan_launch(p: Platform, chosen: &str, args: &Vec<String>, title: &str) -> (r: Vec<Launch>)
    ensures
        launch_views(r@) == launch_plan(p, chosen@, texts(args@), title@),
{
    let ghost want = launch_plan(p, chosen@, texts(args@), title@);
    match p {
        Platform::MacOs => plan_mac(chosen, args, title),
        Platform::Unix => {
            let a = run_with(chosen, vec!["-e", "kubectl"], args);
            let b = run_with(chosen, vec!["--", "kubectl"], args);
            proof {
                assert(want[0]->args =~= a@->args);
                assert(want[1]->args =~= b@->args);
            }
            let r = vec![a, b];
            assert(launch_views(r@) =~= want);
            r
        },
        Platform::Windows => {
            let a = if same_ignoring_case(chosen, "wt.exe") {
                run_with("wt.exe", vec!["nt", "kubectl"], args)
            } else {
                run_with(chosen, vec!["kubectl"], args)
            };
            proof {
                assert(want[0]->args =~= a@->args);
            }
            let r = vec![a];
            assert(launch_views(r@) =~= want);
            r
        },
    }
}

impl App {
    /// What is tried to open a session of the selected pod in a terminal program.
    pub fn open_external_exec(&mut self, p: Platform) -> (r: Option<Vec<Launch>>)
        ensures
            match selected_in(*old(self), "Pod"@) {
                None => {
                    &&& r is None
                    &&& *final(self) == (App { last_error: final(self).last_error, ..*old(self) })
                    &&& opt_text(final(self).last_error) == Some("exec: select a Pod first"@)
                },
                Some(pod) => {
                    &&& *final(self) == *old(self)
                    &&& r matches Some(v) && launch_views(v@) == launch_plan(
                        p,
                        trimmed(old(self).session.external_cmd@),
                        exec_args(
                            opt_text(old(self).current_context),
                            pod,
                            opt_text(old(self).session.container),
                            true,
                        ) + words(session_command(old(self).session.cmd@)),
                        "exec: "@ + pod.0 + "/"@ + pod.1,
                    )
                },
            },
    {
        match self.current_pod_selection() {
            None => {
                self.last_error = Some(copy_text("exec: select a Pod first"));
                None
            },
            Some((ns, pod)) => {
                let mut args = target_args(
                    &self.current_context,
                    ns.as_str(),
                    pod.as_str(),
                    &self.session.container,
                    true,
                );
                let t = trim(self.session.cmd.as_str());
                let mut tail = if t.as_str().is_empty() {
                    split_words("/bin/sh")
                } else {
                    split_words(self.session.cmd.as_str())
                };
                let ghost hv = texts(args@);
                let ghost tv = texts(tail@);
                args.append(&mut tail);
                assert(texts(args@) =~= hv + tv);
                let chosen = trim(self.session.external_cmd.as_str());
                let title = cat4("exec: ", ns.as_str(), "/", pod.as_str());
                Some(plan_launch(p, chosen.as_str(), &args, title.as_str()))
            },
        }
    }

    /// Tell the user that no terminal could be launched.
    pub fn external_exec_failed(&mut self)
        ensures
            *final(self) == (App { last_error: final(self).last_error, ..*old(self) }),
            opt_text(final(self).last_error) == Some(
                "exec: failed to launch external terminal: "@ + trimmed(
                    old(self).session.external_cmd@,
                ),
            ),
    {
        let chosen = trim(self.session.external_cmd.as_str());
        self.last_error = Some(
            cat2("exec: failed to launch external terminal: ", chosen.as_str()),
        );
    }
}

// ---------------------------------------------------------------------------
// What a shell is given

proof fn lemma_plain(s: Seq<char>, f: spec_fn(char) -> Seq<char>)
    requires
        forall|i: int| 0 <= i < s.len() ==> f(#[trigger] s[i]) == seq![s[i]],
    ensures
        concat(s, f) == s,
    decreases s.len(),
{
    if s.len() > 0 {
        let d = s.drop_last();
        assert forall|i: int| 0 <= i < d.len() implies f(#[trigger] d[i]) == seq![d[i]] by {
            assert(d[i] == s[i]);
        }
        lemma_plain(d, f);
        assert(f(s[s.len() - 1]) == seq![s.last()]);
        assert(d + seq![s.last()] =~= s);
    } else {
        assert(concat(s, f) =~= s);
    }
}

proof fn lemma_concat_join(a: Seq<char>, b: Seq<char>, f: spec_fn(char) -> Seq<char>)
    ensures
        concat(a + b, f) == concat(a, f) + concat(b, f),
    decreases b.len(),
{
    if b.len() == 0 {
        assert(a + b =~= a);
        assert(concat(a, f) + concat(b, f) =~= concat(a, f));
    } else {
        lemma_concat_join(a, b.drop_last(), f);
        assert((a + b).drop_last() =~= a + b.drop_last());
        assert(concat(a, f) + (concat(b.drop_last(), f) + f(b.last())) =~= concat(a, f) + concat(b.drop_last(), f) + f(
            b.last(),
        ));
    }
}

/// A word of plain characters is given to a shell as it is. Any other word stands between
/// quotes, in which nothing but a quote and an exclamation mark is written otherwise. An empty
/// word stands between quotes too.
pub proof fn law_shell_word(s: Seq<char>, bad: int)
    ensures
        s.len() > 0 && (forall|i: int| 0 <= i < s.len() ==> shell_safe(#[trigger] s[i])) ==> shell_word(s) == s,
        0 <= bad < s.len() && !shell_safe(s[bad]) && (forall|i: int|
            0 <= i < s.len() ==> (#[trigger] s[i]) != '\'' && s[i] != '!') ==> shell_word(s) == seq!['\''] + s + seq!['\''],
        shell_word(Seq::empty()) == seq!['\'', '\''],
        shell_word(seq!['\'']) == seq!['\'', '\'', '\\', '\'', '\'', '\''],
        !shell_safe(' ') && !shell_safe(';') && !shell_safe('$') && !shell_safe('`') && !shell_safe('&') && !shell_safe('|')
            && !shell_safe('"') && !shell_safe('\'') && !shell_safe('*') && !shell_safe('\n'),
{
    let f = |c: char| shell_quoted(c);
    if forall|i: int| 0 <= i < s.len() ==> (#[trigger] s[i]) != '\'' && s[i] != '!' {
        assert forall|i: int| 0 <= i < s.len() implies f(#[trigger] s[i]) == seq![s[i]] by {}
        lemma_plain(s, f);
    }
    assert(concat(Seq::<char>::empty(), f) =~= Seq::<char>::empty());
    assert(shell_word(Seq::empty()) =~= seq!['\'', '\'']);
    let q = seq!['\''];
    assert(q.drop_last() =~= Seq::<char>::empty());
    assert(!shell_safe(q[0]));
    assert(concat(q, f) =~= seq!['\'', '\\', '\'', '\'']);
    assert(shell_word(q) =~= seq!['\'', '\'', '\\', '\'', '\'', '\'']);
}

/// A command line is the program and its arguments, each of them one word of the shell, with a
/// space before it.
pub proof fn law_command_line(bin: Seq<char>, args: Seq<Seq<char>>, last: Seq<char>)
    ensures
        command_line(bin, Seq::empty()) == bin,
        command_line(bin, args.push(last)) == command_line(bin, args) + " "@ + shell_word(last),
{
    assert(args.push(last).drop_last() =~= args);
}

/// In a script a quote, a backslash and a line feed are escaped, and nothing else is changed.
pub proof fn law_script_text(a: Seq<char>, b: Seq<char>)
    ensures
        script_text(a + b) == script_text(a) + script_text(b),
        (forall|i: int| 0 <= i < a.len() ==> (#[trigger] a[i]) != '"' && a[i] != '\\' && a[i] != '\n') ==> script_text(a)
            == a,
        script_text(seq!['"']) == seq!['\\', '"'],
        script_text(seq!['\\']) == seq!['\\', '\\'],
        script_text(seq!['\n']) == seq!['\\', 'n'],
{
    let f = |c: char| script_quoted(c);
    lemma_concat_join(a, b, f);
    if forall|i: int| 0 <= i < a.len() ==> (#[trigger] a[i]) != '"' && a[i] != '\\' && a[i] != '\n' {
        assert forall|i: int| 0 <= i < a.len() implies f(#[trigger] a[i]) == seq![a[i]] by {}
        lemma_plain(a, f);
    }
    assert(seq!['"'].drop_last() =~= Seq::<char>::empty());
    assert(seq!['\\'].drop_last() =~= Seq::<char>::empty());
    assert(seq!['\n'].drop_last() =~= Seq::<char>::empty());
    assert(concat(Seq::<char>::empty(), f) =~= Seq::<char>::empty());
    assert(script_text(seq!['"']) =~= seq!['\\', '"']);
    assert(script_text(seq!['\\']) =~= seq!['\\', '\\']);
    assert(script_text(seq!['\n']) =~= seq!['\\', 'n']);
}

/// On Unix and on Windows the terminal that was chosen is started with the whole command, which
/// stands last and in order.
pub proof fn law_launch(p: Platform, chosen: Seq<char>, args: Seq<Seq<char>>, title: Seq<char>, i: int)
    requires
        p is Unix || p is Windows,
        0 <= i < launch_plan(p, chosen, args, title).len(),
    ensures
        launch_plan(p, chosen, args, title)[i] matches LaunchView::Run { program, args: given } && {
            &&& given.len() > args.len()
            &&& given.skip(given.len() - args.len()) == args
            &&& given[given.len() - args.len() - 1] == "kubectl"@
            &&& ascii_lower(program) == ascii_lower(chosen)
        },
{
    let a = seq!["-e"@, "kubectl"@] + args;
    let b = seq!["--"@, "kubectl"@] + args;
    let c = seq!["nt"@, "kubectl"@] + args;
    let d = seq!["kubectl"@] + args;
    assert(a.skip(2) =~= args && b.skip(2) =~= args && c.skip(2) =~= args && d.skip(1) =~= args);
}

} // verus!
