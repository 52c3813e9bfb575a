//! Voice commands: the PowerShell invocation for a command and its options.
use vstd::prelude::*;
use crate::settings::{opt_chars, ExecutionPolicy, ResolvedExecutionOptions};
use crate::text::{
    all_ws, chars_eq, chars_of, is_blank, is_ws, is_ws_char, lowercase, push_str, str_eq, str_to_string,
    string_of, to_lowercase,
};

verus! {

/// The policy named by the frontend (`None`: the system default).
pub open spec fn policy_named(name: Option<Seq<char>>) -> Option<ExecutionPolicy> {
    match name {
        Some(p) => if p == "bypass"@ {
            Some(ExecutionPolicy::Bypass)
        } else if p == "unrestricted"@ {
            Some(ExecutionPolicy::Unrestricted)
        } else if p == "remote_signed"@ {
            Some(ExecutionPolicy::RemoteSigned)
        } else {
            None
        },
        None => None,
    }
}

/// Reads an execution policy sent by the frontend.
pub fn parse_execution_policy(name: Option<&str>) -> (r: Option<ExecutionPolicy>)
    ensures
        r == policy_named(
            match name {
                Some(p) => Some(p@),
                None => None,
            },
        ),
{
    match name {
        Some(p) => if str_eq(p, "bypass") {
            Some(ExecutionPolicy::Bypass)
        } else if str_eq(p, "unrestricted") {
            Some(ExecutionPolicy::Unrestricted)
        } else if str_eq(p, "remote_signed") {
            Some(ExecutionPolicy::RemoteSigned)
        } else {
            None
        },
        None => None,
    }
}

/// The frontend's name of a policy (none for the system default).
pub open spec fn policy_name(p: ExecutionPolicy) -> Option<Seq<char>> {
    match p {
        ExecutionPolicy::Default => None,
        ExecutionPolicy::Bypass => Some("bypass"@),
        ExecutionPolicy::Unrestricted => Some("unrestricted"@),
        ExecutionPolicy::RemoteSigned => Some("remote_signed"@),
    }
}

/// Names a policy for the frontend.
pub fn format_execution_policy(policy: ExecutionPolicy) -> (r: Option<String>)
    ensures
        opt_chars(r) == policy_name(policy),
{
    match policy {
        ExecutionPolicy::Default => None,
        ExecutionPolicy::Bypass => Some(str_to_string("bypass")),
        ExecutionPolicy::Unrestricted => Some(str_to_string("unrestricted")),
        ExecutionPolicy::RemoteSigned => Some(str_to_string("remote_signed")),
    }
}

/// The options of a command run from the frontend: the named policy, or
/// the system default.
pub fn execution_options(
    silent: bool,
    no_profile: bool,
    use_pwsh: bool,
    execution_policy: Option<&str>,
    working_directory: Option<String>,
) -> (r: ResolvedExecutionOptions)
    ensures
        r.silent == silent,
        r.no_profile == no_profile,
        r.use_pwsh == use_pwsh,
        r.execution_policy == match policy_named(
            match execution_policy {
                Some(p) => Some(p@),
                None => None,
            },
        ) {
            Some(p) => p,
            None => ExecutionPolicy::Default,
        },
        r.working_directory == working_directory,
{
    let policy = match parse_execution_policy(execution_policy) {
        Some(p) => p,
        None => ExecutionPolicy::Default,
    };
    ResolvedExecutionOptions { silent, no_profile, use_pwsh, execution_policy: policy, working_directory }
}

/// How PowerShell is started for a command.
#[derive(Debug)]
pub struct PowerShellInvocation {
    /// `pwsh` or `powershell`.
    pub program: String,
    pub args: Vec<String>,
    /// The directory it runs in, when one is set.
    pub working_directory: Option<String>,
    /// Hidden and detached (silent), or in a console window left open.
    pub hidden: bool,
}

/// The arguments selecting the execution policy.
pub open spec fn policy_args(p: ExecutionPolicy) -> Seq<Seq<char>> {
    match p {
        ExecutionPolicy::Default => Seq::empty(),
        ExecutionPolicy::Bypass => seq!["-ExecutionPolicy"@, "Bypass"@],
        ExecutionPolicy::Unrestricted => seq!["-ExecutionPolicy"@, "Unrestricted"@],
        ExecutionPolicy::RemoteSigned => seq!["-ExecutionPolicy"@, "RemoteSigned"@],
    }
}

/// The PowerShell arguments: `-NoProfile` when asked for; silently,
/// `-NonInteractive`; the policy; then the command, after `-NoExit` in a
/// window.
pub open spec fn powershell_args(script: Seq<char>, silent: bool, no_profile: bool, policy: ExecutionPolicy) -> Seq<Seq<char>> {
    (if no_profile {
        seq!["-NoProfile"@]
    } else {
        Seq::empty()
    }) + (if silent {
        seq!["-NonInteractive"@]
    } else {
        Seq::empty()
    }) + policy_args(policy) + (if silent {
        seq!["-Command"@, script]
    } else {
        seq!["-NoExit"@, "-Command"@, script]
    })
}

/// Model of an argument list.
pub open spec fn args_view(v: Seq<String>) -> Seq<Seq<char>> {
    v.map_values(|s: String| s@)
}

fn push_arg(v: &mut Vec<String>, a: &str)
    ensures
        args_view(final(v)@) == args_view(old(v)@).push(a@),
{
    let ghost b = args_view(v@);
    v.push(str_to_string(a));
    assert(args_view(v@) =~= b.push(a@));
}

/// The invocation for a command (an empty command is refused).
pub fn powershell_invocation(script: &str, options: &ResolvedExecutionOptions) -> (r: Result<
    PowerShellInvocation,
    String,
>)
    ensures
        all_ws(script@) ==> r is Err && r->Err_0@ == "Command is empty"@,
        !all_ws(script@) ==> r is Ok && r->Ok_0.program@ == (if options.use_pwsh {
            "pwsh"@
        } else {
            "powershell"@
        }) && args_view(r->Ok_0.args@) == powershell_args(
            script@,
            options.silent,
            options.no_profile,
            options.execution_policy,
        ) && r->Ok_0.hidden == options.silent && opt_chars(r->Ok_0.working_directory) == match options.working_directory {
            Some(d) => if all_ws(d@) {
                None
            } else {
                Some(d@)
            },
            None => None,
        },
{
    if is_blank(script) {
        return Err(str_to_string("Command is empty"));
    }
    let program = if options.use_pwsh {
        str_to_string("pwsh")
    } else {
        str_to_string("powershell")
    };
    let mut args: Vec<String> = Vec::new();
    let ghost a0 = args_view(args@);
    assert(a0 =~= Seq::<Seq<char>>::empty());
    if options.no_profile {
        push_arg(&mut args, "-NoProfile");
    }
    let ghost a1 = args_view(args@);
    if options.silent {
        push_arg(&mut args, "-NonInteractive");
    }
    let ghost a2 = args_view(args@);
    match options.execution_policy {
        ExecutionPolicy::Default => {},
        ExecutionPolicy::Bypass => {
            push_arg(&mut args, "-ExecutionPolicy");
            push_arg(&mut args, "Bypass");
        },
        ExecutionPolicy::Unrestricted => {
            push_arg(&mut args, "-ExecutionPolicy");
            push_arg(&mut args, "Unrestricted");
        },
        ExecutionPolicy::RemoteSigned => {
            push_arg(&mut args, "-ExecutionPolicy");
            push_arg(&mut args, "RemoteSigned");
        },
    }
    let ghost a3 = args_view(args@);
    if !options.silent {
        push_arg(&mut args, "-NoExit");
    }
    push_arg(&mut args, "-Command");
    push_arg(&mut args, script);
    assert(args_view(args@) =~= powershell_args(
        script@,
        options.silent,
        options.no_profile,
        options.execution_policy,
    ));
    let working_directory = match &options.working_directory {
        Some(d) => if is_blank(d.as_str()) {
            None
        } else {
            Some(crate::text::copy_string(d))
        },
        None => None,
    };
    Ok(PowerShellInvocation { program, args, working_directory, hidden: options.silent })
}

/// The message of a started command, or of a failure to start it.
pub fn launch_result(hidden: bool, program: &str, spawn_error: Option<&str>) -> (r: Result<String, String>)
    ensures
        match spawn_error {
            None => r is Ok && r->Ok_0@ == (if hidden {
                "Command started in background"@
            } else {
                "Command opened in PowerShell window"@
            }),
            Some(e) => r is Err && r->Err_0@ == (if hidden {
                "Failed to spawn command: "@ + e@
            } else {
                "Failed to open "@ + program@ + " window: "@ + e@
            }),
        },
{
    match spawn_error {
        None => if hidden {
            Ok(str_to_string("Command started in background"))
        } else {
            Ok(str_to_string("Command opened in PowerShell window"))
        },
        Some(e) => {
            let mut v = if hidden {
                chars_of("Failed to spawn command: ")
            } else {
                let mut w = chars_of("Failed to open ");
                push_str(&mut w, program);
                push_str(&mut w, " window: ");
                w
            };
            push_str(&mut v, e);
            Err(string_of(v.as_slice()))
        },
    }
}


/// The words of `s`: its maximal runs of non-whitespace characters, in
/// order (what `str::split_whitespace` yields).
pub open spec fn split_ws(s: Seq<char>) -> Seq<Seq<char>>
    decreases s.len(),
{
    if s.len() == 0 {
        Seq::empty()
    } else {
        let w = split_ws(s.drop_last());
        let c = s.last();
        if is_ws(c) {
            w
        } else if s.len() >= 2 && !is_ws(s[s.len() - 2]) {
            w.drop_last().push(w.last().push(c))
        } else {
            w.push(seq![c])
        }
    }
}

/// The distinct words of a phrase, compared in lower case.
pub open spec fn word_set(s: Seq<char>) -> Set<Seq<char>> {
    split_ws(lowercase(s)).to_set()
}

/// How two phrases compare word by word: whether they are equal ignoring
/// case, how many distinct words each has, how many they share and how
/// many they have together. The similarity of a voice command is 1 for an
/// exact match, else `shared / total` (0 when a phrase has no word).
#[derive(Debug, Clone, Copy, PartialEq, Eq, Structural)]
pub struct WordOverlap {
    pub exact: bool,
    pub first_words: usize,
    pub second_words: usize,
    pub shared: usize,
    pub total: usize,
}

/// Model of a list of words.
pub open spec fn words_view(v: Seq<Vec<char>>) -> Seq<Seq<char>> {
    v.map_values(|w: Vec<char>| w@)
}

proof fn lemma_split_ws_last(s: Seq<char>)
    requires
        s.len() > 0,
        !is_ws(s.last()),
    ensures
        split_ws(s).len() > 0,
{
}

proof fn lemma_push_set(s: Seq<Seq<char>>, x: Seq<char>)
    ensures
        s.push(x).to_set() == s.to_set().insert(x),
{
    s.lemma_push_to_set_commute(x);
}

fn split_words(s: &[char]) -> (r: Vec<Vec<char>>)
    ensures
        words_view(r@) == split_ws(s@),
{
    let mut words: Vec<Vec<char>> = Vec::new();
    let mut i: usize = 0;
    assert(s@.take(0) =~= Seq::<char>::empty());
    while i < s.len()
        invariant
            0 <= i <= s.len(),
            words_view(words@) == split_ws(s@.take(i as int)),
        decreases s.len() - i,
    {
        let ghost t = s@.take(i + 1);
        assert(t.drop_last() =~= s@.take(i as int));
        assert(t.last() == s@[i as int]);
        let c = s[i];
        if !is_ws_char(c) {
            let continues = i > 0 && !is_ws_char(s[i - 1]);
            let ghost before = words_view(words@);
            if continues {
                assert(t[t.len() - 2] == s@[i - 1]);
                proof {
                    let p = s@.take(i as int);
                    assert(p.last() == s@[i - 1]);
                    lemma_split_ws_last(p);
                }
                let mut last = words.pop().unwrap();
                last.push(c);
                words.push(last);
                assert(words_view(words@) =~= before.drop_last().push(before.last().push(c)));
            } else {
                if i > 0 {
                    assert(t[t.len() - 2] == s@[i - 1]);
                }
                let mut w: Vec<char> = Vec::new();
                w.push(c);
                words.push(w);
                assert(words_view(words@) =~= before.push(seq![c]));
            }
        }
        i = i + 1;
    }
    assert(s@.take(s.len() as int) =~= s@);
    words
}

fn contains_word(list: &Vec<Vec<char>>, w: &[char]) -> (r: bool)
    ensures
        r == words_view(list@).contains(w@),
{
    let mut i: usize = 0;
    while i < list.len()
        invariant
            0 <= i <= list.len(),
            forall|j: int| 0 <= j < i ==> (#[trigger] words_view(list@)[j]) != w@,
        decreases list.len() - i,
    {
        if chars_eq(list[i].as_slice(), w) {
            assert(words_view(list@)[i as int] == w@);
            return true;
        }
        i = i + 1;
    }
    false
}

fn copy_word(w: &Vec<char>) -> (r: Vec<char>)
    ensures
        r@ == w@,
{
    let mut out: Vec<char> = Vec::new();
    let mut i: usize = 0;
    while i < w.len()
        invariant
            0 <= i <= w.len(),
            out@ == w@.take(i as int),
        decreases w.len() - i,
    {
        out.push(w[i]);
        assert(out@ =~= w@.take(i + 1));
        i = i + 1;
    }
    assert(w@.take(w.len() as int) =~= w@);
    out
}

fn distinct_words(words: &Vec<Vec<char>>) -> (r: Vec<Vec<char>>)
    ensures
        words_view(r@).no_duplicates(),
        words_view(r@).to_set() == words_view(words@).to_set(),
{
    let ghost all = words_view(words@);
    let mut out: Vec<Vec<char>> = Vec::new();
    let mut i: usize = 0;
    assert(all.take(0).to_set() =~= Set::<Seq<char>>::empty());
    assert(words_view(out@).to_set() =~= Set::<Seq<char>>::empty());
    while i < words.len()
        invariant
            0 <= i <= words.len(),
            all == words_view(words@),
            words_view(out@).no_duplicates(),
            words_view(out@).to_set() == all.take(i as int).to_set(),
        decreases words.len() - i,
    {
        assert(all.take(i + 1) =~= all.take(i as int).push(all[i as int]));
        proof {
            lemma_push_set(all.take(i as int), all[i as int]);
        }
        let w = &words[i];
        if !contains_word(&out, w.as_slice()) {
            let ghost before = words_view(out@);
            out.push(copy_word(w));
            assert(words_view(out@) =~= before.push(all[i as int]));
            proof {
                lemma_push_set(before, all[i as int]);
            }
        } else {
            assert(all.take(i as int).to_set().contains(all[i as int]));
            assert(all.take(i as int).to_set().insert(all[i as int]) =~= all.take(i as int).to_set());
        }
        i = i + 1;
    }
    assert(all.take(words.len() as int) =~= all);
    out
}

fn shared_words(a: &Vec<Vec<char>>, b: &Vec<Vec<char>>) -> (r: Vec<Vec<char>>)
    requires
        words_view(a@).no_duplicates(),
    ensures
        words_view(r@).no_duplicates(),
        words_view(r@).to_set() == words_view(a@).to_set().intersect(words_view(b@).to_set()),
{
    let ghost sa = words_view(a@);
    let ghost sb = words_view(b@).to_set();
    let mut out: Vec<Vec<char>> = Vec::new();
    let mut i: usize = 0;
    assert(sa.take(0).to_set() =~= Set::<Seq<char>>::empty());
    assert(words_view(out@).to_set() =~= sa.take(0).to_set().intersect(sb));
    while i < a.len()
        invariant
            0 <= i <= a.len(),
            sa == words_view(a@),
            sa.no_duplicates(),
            sb == words_view(b@).to_set(),
            words_view(out@).no_duplicates(),
            words_view(out@).to_set() == sa.take(i as int).to_set().intersect(sb),
        decreases a.len() - i,
    {
        assert(sa.take(i + 1) =~= sa.take(i as int).push(sa[i as int]));
        proof {
            lemma_push_set(sa.take(i as int), sa[i as int]);
        }
        let x = &a[i];
        if contains_word(b, x.as_slice()) {
            let ghost before = words_view(out@);
            proof {
                if before.contains(sa[i as int]) {
                    assert(before.to_set().contains(sa[i as int]));
                    assert(sa.take(i as int).to_set().contains(sa[i as int]));
                    let j = choose|j: int| 0 <= j < sa.take(i as int).len() && sa.take(i as int)[j] == sa[i as int];
                    assert(sa[j] == sa[i as int]);
                }
            }
            out.push(copy_word(x));
            assert(words_view(out@) =~= before.push(sa[i as int]));
            proof {
                lemma_push_set(before, sa[i as int]);
            }
            assert(words_view(out@).to_set() =~= sa.take(i + 1).to_set().intersect(sb));
        } else {
            assert(words_view(out@).to_set() =~= sa.take(i + 1).to_set().intersect(sb));
        }
        i = i + 1;
    }
    assert(sa.take(a.len() as int) =~= sa);
    out
}

fn all_words(a: &Vec<Vec<char>>, b: &Vec<Vec<char>>) -> (r: Vec<Vec<char>>)
    requires
        words_view(a@).no_duplicates(),
        words_view(b@).no_duplicates(),
    ensures
        words_view(r@).no_duplicates(),
        words_view(r@).to_set() == words_view(a@).to_set().union(words_view(b@).to_set()),
{
    let ghost sa = words_view(a@);
    let ghost sb = words_view(b@);
    let mut out: Vec<Vec<char>> = Vec::new();
    let mut k: usize = 0;
    assert(sb.take(0).to_set() =~= Set::<Seq<char>>::empty());
    while k < b.len()
        invariant
            0 <= k <= b.len(),
            sb == words_view(b@),
            sb.no_duplicates(),
            words_view(out@) == sb.take(k as int),
        decreases b.len() - k,
    {
        let ghost before = words_view(out@);
        out.push(copy_word(&b[k]));
        assert(sb[k as int] == b@[k as int]@);
        assert(words_view(out@) =~= before.push(sb[k as int]));
        assert(sb.take(k + 1) =~= sb.take(k as int).push(sb[k as int]));
        k = k + 1;
    }
    assert(sb.take(b.len() as int) =~= sb);
    let mut i: usize = 0;
    assert(sa.take(0).to_set() =~= Set::<Seq<char>>::empty());
    assert(words_view(out@).to_set() =~= sb.to_set().union(sa.take(0).to_set()));
    while i < a.len()
        invariant
            0 <= i <= a.len(),
            sa == words_view(a@),
            sb == words_view(b@),
            sa.no_duplicates(),
            words_view(out@).no_duplicates(),
            words_view(out@).to_set() == sb.to_set().union(sa.take(i as int).to_set()),
        decreases a.len() - i,
    {
        assert(sa.take(i + 1) =~= sa.take(i as int).push(sa[i as int]));
        proof {
            lemma_push_set(sa.take(i as int), sa[i as int]);
        }
        let x = &a[i];
        if !contains_word(b, x.as_slice()) {
            let ghost before = words_view(out@);
            proof {
                if before.contains(sa[i as int]) {
                    assert(before.to_set().contains(sa[i as int]));
                    assert(sa.take(i as int).to_set().contains(sa[i as int]));
                    let j = choose|j: int| 0 <= j < sa.take(i as int).len() && sa.take(i as int)[j] == sa[i as int];
                    assert(sa[j] == sa[i as int]);
                }
            }
            out.push(copy_word(x));
            assert(words_view(out@) =~= before.push(sa[i as int]));
            proof {
                lemma_push_set(before, sa[i as int]);
            }
            assert(words_view(out@).to_set() =~= sb.to_set().union(sa.take(i + 1).to_set()));
        } else {
            assert(words_view(out@).to_set() =~= sb.to_set().union(sa.take(i + 1).to_set()));
        }
        i = i + 1;
    }
    assert(sa.take(a.len() as int) =~= sa);
    assert(words_view(out@).to_set() =~= sa.to_set().union(sb.to_set()));
    out
}

/// Compares two phrases word by word (the counts behind a voice command's
/// similarity score).
pub fn word_overlap(a: &str, b: &str) -> (r: WordOverlap)
    ensures
        r.exact == (lowercase(a@) == lowercase(b@)),
        r.first_words == word_set(a@).len(),
        r.second_words == word_set(b@).len(),
        r.shared == word_set(a@).intersect(word_set(b@)).len(),
        r.total == word_set(a@).union(word_set(b@)).len(),
        r.shared + r.total == r.first_words + r.second_words,
{
    let la = to_lowercase(a);
    let lb = to_lowercase(b);
    let exact = str_eq(la.as_str(), lb.as_str());
    let ca = chars_of(la.as_str());
    let cb = chars_of(lb.as_str());
    let wa = split_words(ca.as_slice());
    let wb = split_words(cb.as_slice());
    let ua = distinct_words(&wa);
    let ub = distinct_words(&wb);
    let common = shared_words(&ua, &ub);
    let together = all_words(&ua, &ub);
    proof {
        words_view(ua@).unique_seq_to_set();
        words_view(ub@).unique_seq_to_set();
        words_view(common@).unique_seq_to_set();
        words_view(together@).unique_seq_to_set();
        vstd::seq_lib::seq_to_set_is_finite(words_view(ua@));
        vstd::seq_lib::seq_to_set_is_finite(words_view(ub@));
        vstd::set_lib::lemma_set_intersect_union_lens(words_view(ua@).to_set(), words_view(ub@).to_set());
    }
    WordOverlap {
        exact,
        first_words: ua.len(),
        second_words: ub.len(),
        shared: common.len(),
        total: together.len(),
    }
}

} // verus!
