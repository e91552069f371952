use crate::labels::{
    entries_of, find, inserted, label_map_get, label_map_insert, label_map_keys, label_map_len,
    label_map_new, lemma_find_in, lemma_inserted_bounded, lemma_without_bounded, without,
};
use linked_hash_map::LinkedHashMap;
use vstd::prelude::*;

verus! {

/// A step of a menu chain: run a program, or let the user pick the next step.
#[derive(Debug)]
pub enum Action {
    Command(RofiCommand),
    Menu(RofiMenu),
}

/// Runs a program with fixed arguments; its output and status are ignored.
#[derive(Debug)]
pub struct RofiCommand {
    /// The name of the command to be executed.
    command: String,
    /// The arguments of the command to be executed.
    args: Vec<String>,
}

/// The views of a list of strings.
pub open spec fn texts(v: Seq<String>) -> Seq<Seq<char>> {
    v.map_values(|s: String| s@)
}

impl RofiCommand {
    pub closed spec fn program(&self) -> Seq<char> {
        self.command@
    }

    pub closed spec fn arguments(&self) -> Seq<Seq<char>> {
        texts(self.args@)
    }

    pub fn new(command: String, args: Vec<String>) -> (r: RofiCommand)
        ensures
            r.program() == command@,
            r.arguments() == texts(args@),
    {
        RofiCommand { command, args }
    }

    pub fn command(&self) -> (r: &String)
        ensures
            r@ == self.program(),
    {
        &self.command
    }

    pub fn args(&self) -> (r: &Vec<String>)
        ensures
            texts(r@) == self.arguments(),
    {
        &self.args
    }
}

/// A labelled choice of actions, shown through the picker.
#[derive(Debug)]
pub struct RofiMenu {
    /// The name of the menu, for bookkeeping.
    name: String,
    /// The prompt shown by the picker.
    prompt: String,
    /// Each label, in display order, with the index of its action.
    options: LinkedHashMap<String, usize>,
    /// The actions the labels lead to; one whose label was given again stays
    /// here, out of reach.
    actions: Vec<Action>,
}

/// The entries of an option map with each index replaced by its action.
pub open spec fn resolve(s: Seq<(Seq<char>, usize)>, actions: Seq<Action>) -> Seq<(Seq<char>, Action)> {
    s.map_values(|e: (Seq<char>, usize)| (e.0, actions[e.1 as int]))
}

/// The action of the first option labelled `label`.
pub open spec fn option_for(s: Seq<(Seq<char>, Action)>, label: Seq<char>) -> Option<Action>
    decreases s.len(),
{
    if s.len() == 0 {
        None
    } else if s[0].0 == label {
        Some(s[0].1)
    } else {
        option_for(s.drop_first(), label)
    }
}

/// The options without those labelled `label`, order kept.
pub open spec fn drop_label(s: Seq<(Seq<char>, Action)>, label: Seq<char>) -> Seq<(Seq<char>, Action)>
    decreases s.len(),
{
    if s.len() == 0 {
        s
    } else if s[0].0 == label {
        drop_label(s.drop_first(), label)
    } else {
        seq![s[0]] + drop_label(s.drop_first(), label)
    }
}

/// The labels of a list of options, in order.
pub open spec fn labels_of(s: Seq<(Seq<char>, Action)>) -> Seq<Seq<char>> {
    s.map_values(|e: (Seq<char>, Action)| e.0)
}

proof fn lemma_resolve_without(s: Seq<(Seq<char>, usize)>, actions: Seq<Action>, k: Seq<char>)
    ensures
        resolve(without(s, k), actions) == drop_label(resolve(s, actions), k),
    decreases s.len(),
{
    if s.len() > 0 {
        lemma_resolve_without(s.drop_first(), actions, k);
        assert(resolve(s, actions).drop_first() =~= resolve(s.drop_first(), actions));
        if s[0].0 != k {
            assert(resolve(seq![s[0]] + without(s.drop_first(), k), actions) =~= seq![
                resolve(s, actions)[0],
            ] + resolve(without(s.drop_first(), k), actions));
        }
    } else {
        assert(resolve(s, actions) =~= Seq::empty());
    }
}

proof fn lemma_resolve_find(s: Seq<(Seq<char>, usize)>, actions: Seq<Action>, k: Seq<char>)
    ensures
        option_for(resolve(s, actions), k) == (match find(s, k) {
            Some(i) => Some(actions[i as int]),
            None => None,
        }),
    decreases s.len(),
{
    if s.len() > 0 {
        lemma_resolve_find(s.drop_first(), actions, k);
        assert(resolve(s, actions).drop_first() =~= resolve(s.drop_first(), actions));
    }
}

proof fn lemma_resolve_extend(s: Seq<(Seq<char>, usize)>, actions: Seq<Action>, a: Action)
    requires
        forall|i: int| 0 <= i < s.len() ==> #[trigger] s[i].1 < actions.len(),
    ensures
        resolve(s, actions.push(a)) == resolve(s, actions),
{
    assert(resolve(s, actions.push(a)) =~= resolve(s, actions));
}

impl RofiMenu {
    #[verifier::type_invariant]
    spec fn indices_in_range(self) -> bool {
        forall|i: int|
            0 <= i < entries_of(self.options).len() ==> #[trigger] entries_of(self.options)[i].1
                < self.actions@.len()
    }

    pub closed spec fn name_text(&self) -> Seq<char> {
        self.name@
    }

    pub closed spec fn prompt_text(&self) -> Seq<char> {
        self.prompt@
    }

    /// The options, each label with its action, in display order.
    pub closed spec fn options(&self) -> Seq<(Seq<char>, Action)> {
        resolve(entries_of(self.options), self.actions@)
    }

    /// The labels, in display order.
    pub open spec fn labels(&self) -> Seq<Seq<char>> {
        labels_of(self.options())
    }

    /// A menu with no options yet.
    pub fn new(name: String, prompt: String) -> (r: RofiMenu)
        ensures
            r.name_text() == name@,
            r.prompt_text() == prompt@,
            r.options() == Seq::<(Seq<char>, Action)>::empty(),
    {
        let r = RofiMenu { name, prompt, options: label_map_new(), actions: Vec::new() };
        assert(r.options() =~= Seq::<(Seq<char>, Action)>::empty());
        r
    }

    /// Adds an option at the end of the menu; an earlier option with the
    /// same label is replaced.
    pub fn add_option(&mut self, label: String, action: Action)
        ensures
            final(self).name_text() == old(self).name_text(),
            final(self).prompt_text() == old(self).prompt_text(),
            final(self).options() == drop_label(old(self).options(), label@).push((label@, action)),
    {
        proof {
            use_type_invariant(&*self);
        }
        let ghost old_entries = entries_of(self.options);
        let ghost old_actions = self.actions@;
        let ghost l = label@;
        let ghost a = action;
        let mut options = label_map_new();
        std::mem::swap(&mut options, &mut self.options);
        let mut actions: Vec<Action> = Vec::new();
        std::mem::swap(&mut actions, &mut self.actions);
        let n = actions.len();
        actions.push(action);
        label_map_insert(&mut options, label, n);
        proof {
            lemma_without_bounded(old_entries, l, n as int);
            lemma_inserted_bounded(old_entries, l, n, actions@.len() as int);
            lemma_resolve_extend(without(old_entries, l), old_actions, a);
            lemma_resolve_without(old_entries, old_actions, l);
            assert(resolve(inserted(old_entries, l, n), actions@) =~= resolve(
                without(old_entries, l),
                actions@,
            ).push((l, a)));
            assert(forall|i: int|
                0 <= i < entries_of(options).len() ==> #[trigger] entries_of(options)[i].1
                    < actions@.len());
        }
        self.actions = actions;
        self.options = options;
    }

    /// The action of the option labelled `label`, if there is one.
    pub open spec fn option(&self, label: Seq<char>) -> Option<Action> {
        option_for(self.options(), label)
    }

    pub fn name(&self) -> (r: &String)
        ensures
            r@ == self.name_text(),
    {
        &self.name
    }

    pub fn prompt(&self) -> (r: &String)
        ensures
            r@ == self.prompt_text(),
    {
        &self.prompt
    }

    /// The number of options.
    pub fn len(&self) -> (r: usize)
        ensures
            r == self.options().len(),
    {
        label_map_len(&self.options)
    }
}

/// What the picker is given: each label followed by a line break.
pub open spec fn lines(ls: Seq<Seq<char>>) -> Seq<char>
    decreases ls.len(),
{
    if ls.len() == 0 {
        Seq::empty()
    } else {
        lines(ls.drop_last()) + ls.last() + seq!['\n']
    }
}

/// The decimal digit `d`.
pub open spec fn digit(d: nat) -> char {
    seq!['0', '1', '2', '3', '4', '5', '6', '7', '8', '9'][d as int]
}

/// The decimal notation of `n`.
pub open spec fn decimal(n: nat) -> Seq<char>
    decreases n,
{
    if n < 10 {
        seq![digit(n)]
    } else {
        decimal(n / 10).push(digit(n % 10))
    }
}

/// Relies on the `Display` of `usize`: its decimal notation.
#[verifier::external_body]
fn decimal_text(n: usize) -> (r: String)
    ensures
        r@ == decimal(n as nat),
{
    n.to_string()
}

/// What `str::trim_end` leaves of a text.
pub uninterp spec fn trimmed_end(s: Seq<char>) -> Seq<char>;

/// Relies on `str::trim_end`: the text without its trailing whitespace, a
/// prefix of it.
#[verifier::external_body]
fn trim_trailing(s: &str) -> (r: &str)
    ensures
        r@ == trimmed_end(s@),
        r@.len() <= s@.len(),
        r@ == s@.subrange(0, r@.len() as int),
{
    s.trim_end()
}

/// Why running an action failed.
#[derive(Debug)]
pub enum RunError {
    /// A process could not be launched.
    Spawn,
    /// Writing to or reading from the picker failed.
    Io,
    /// The picker returned a selection that no option carries.
    UnmappedSelection(String),
}

/// A process for the driver to run: a program, its arguments and, for the
/// picker, the text to write to its input.
#[derive(Debug)]
pub struct Request {
    pub program: String,
    pub args: Vec<String>,
    pub input: Option<String>,
}

/// What came of running a request.
#[derive(Debug)]
pub enum Outcome {
    /// The process ran; this is what it wrote to its output.
    Finished(String),
    /// The process could not be launched.
    SpawnFailed,
    /// Its input or output could not be written or read.
    IoFailed,
}

/// The program that shows the picker.
pub open spec fn picker_program() -> Seq<char> {
    "/usr/bin/rofi"@
}

/// What choosing `label` in menu `m` gives.
pub open spec fn chosen(m: &RofiMenu, label: Seq<char>, r: Result<&Action, RunError>) -> bool {
    match m.option(label) {
        Some(a) => r matches Ok(x) && *x == a,
        None => r matches Err(RunError::UnmappedSelection(s)) && s@ == label,
    }
}

/// What the picker output `out` gives in menu `m`: nothing when it is empty,
/// else the option its text without trailing whitespace labels.
pub open spec fn selected(m: &RofiMenu, out: Seq<char>, r: Result<Option<&Action>, RunError>) -> bool {
    if out.len() == 0 {
        r matches Ok(None)
    } else {
        match m.option(trimmed_end(out)) {
            Some(a) => r matches Ok(Some(x)) && *x == a,
            None => r matches Err(RunError::UnmappedSelection(s)) && s@ == trimmed_end(out),
        }
    }
}

/// The labels without `l`, order kept.
pub open spec fn remove_label(ls: Seq<Seq<char>>, l: Seq<char>) -> Seq<Seq<char>>
    decreases ls.len(),
{
    if ls.len() == 0 {
        ls
    } else if ls[0] == l {
        remove_label(ls.drop_first(), l)
    } else {
        seq![ls[0]] + remove_label(ls.drop_first(), l)
    }
}

proof fn lemma_option_dropped(s: Seq<(Seq<char>, Action)>, l: Seq<char>, t: Seq<char>)
    ensures
        option_for(drop_label(s, l), t) == (if t == l { None } else { option_for(s, t) }),
    decreases s.len(),
{
    if s.len() > 0 {
        lemma_option_dropped(s.drop_first(), l, t);
        if s[0].0 != l {
            assert((seq![s[0]] + drop_label(s.drop_first(), l)).drop_first() =~= drop_label(s.drop_first(), l));
        }
    }
}

proof fn lemma_option_pushed(s: Seq<(Seq<char>, Action)>, x: (Seq<char>, Action), t: Seq<char>)
    ensures
        option_for(s.push(x), t) == (match option_for(s, t) {
            Some(a) => Some(a),
            None => if x.0 == t { Some(x.1) } else { None },
        }),
    decreases s.len(),
{
    if s.len() > 0 {
        lemma_option_pushed(s.drop_first(), x, t);
        assert(s.push(x).drop_first() =~= s.drop_first().push(x));
    } else {
        assert(s.push(x).drop_first() =~= s);
    }
}

/// After an option labelled `l` is added, `l` leads to its action and every
/// other label where it led before.
pub proof fn lemma_option_added(s: Seq<(Seq<char>, Action)>, l: Seq<char>, a: Action, t: Seq<char>)
    ensures
        option_for(drop_label(s, l).push((l, a)), t) == (if t == l { Some(a) } else { option_for(s, t) }),
{
    lemma_option_dropped(s, l, t);
    lemma_option_pushed(drop_label(s, l), (l, a), t);
}

proof fn lemma_labels_dropped(s: Seq<(Seq<char>, Action)>, l: Seq<char>)
    ensures
        labels_of(drop_label(s, l)) == remove_label(labels_of(s), l),
    decreases s.len(),
{
    if s.len() > 0 {
        lemma_labels_dropped(s.drop_first(), l);
        assert(labels_of(s).drop_first() =~= labels_of(s.drop_first()));
        if s[0].0 != l {
            assert(labels_of(seq![s[0]] + drop_label(s.drop_first(), l)) =~= seq![labels_of(s)[0]]
                + labels_of(drop_label(s.drop_first(), l)));
        }
    } else {
        assert(labels_of(s) =~= Seq::empty());
    }
}

/// After an option labelled `l` is added, `l` is the last label and no other
/// label carries it.
pub proof fn lemma_labels_added(s: Seq<(Seq<char>, Action)>, l: Seq<char>, a: Action)
    ensures
        labels_of(drop_label(s, l).push((l, a))) == remove_label(labels_of(s), l).push(l),
{
    lemma_labels_dropped(s, l);
    assert(labels_of(drop_label(s, l).push((l, a))) =~= labels_of(drop_label(s, l)).push(l));
}

/// Copies a list of strings.
fn copy_texts(v: &Vec<String>) -> (r: Vec<String>)
    ensures
        texts(r@) == texts(v@),
{
    let mut r: Vec<String> = Vec::new();
    let mut i: usize = 0;
    while i < v.len()
        invariant
            i <= v@.len(),
            texts(r@) == texts(v@.take(i as int)),
        decreases v.len() - i,
    {
        r.push(v[i].clone());
        assert(texts(v@.take(i + 1)) =~= texts(v@.take(i as int)).push(v@[i as int]@));
        i = i + 1;
    }
    assert(v@.take(v@.len() as int) =~= v@);
    r
}

impl RofiMenu {
    /// The arguments the picker is launched with.
    pub open spec fn picker_arguments(&self) -> Seq<Seq<char>> {
        seq![
            "-p"@,
            self.prompt_text(),
            "-l"@,
            decimal(self.options().len() as nat),
            "-dmenu"@,
            "-i"@,
            "-no-custom"@,
        ]
    }

    /// The picker's input: every label, in display order, each on a line.
    pub fn optionstring(&self) -> (r: String)
        ensures
            r@ == lines(self.labels()),
    {
        let keys = label_map_keys(&self.options);
        let ghost ls = self.labels();
        assert(ls.len() == keys@.len());
        assert(forall|j: int| 0 <= j < ls.len() ==> #[trigger] ls[j] == keys@[j]@);
        let mut r = String::new();
        let mut i: usize = 0;
        while i < keys.len()
            invariant
                i <= keys@.len(),
                ls.len() == keys@.len(),
                forall|j: int| 0 <= j < ls.len() ==> #[trigger] ls[j] == keys@[j]@,
                r@ == lines(ls.take(i as int)),
            decreases keys.len() - i,
        {
            r.append(keys[i].as_str());
            proof {
                reveal_strlit("\n");
            }
            r.append("\n");
            assert(ls.take(i + 1).drop_last() =~= ls.take(i as int));
            i = i + 1;
        }
        assert(ls.take(ls.len() as int) =~= ls);
        r
    }

    /// The arguments the picker is launched with: the prompt, the number of
    /// options, and exact, case-insensitive matching without free text.
    pub fn picker_args(&self) -> (r: Vec<String>)
        ensures
            texts(r@) == self.picker_arguments(),
    {
        proof {
            reveal_strlit("-p");
            reveal_strlit("-l");
            reveal_strlit("-dmenu");
            reveal_strlit("-i");
            reveal_strlit("-no-custom");
        }
        let mut r: Vec<String> = Vec::new();
        r.push(String::from_str("-p"));
        r.push(self.prompt.clone());
        r.push(String::from_str("-l"));
        r.push(decimal_text(self.len()));
        r.push(String::from_str("-dmenu"));
        r.push(String::from_str("-i"));
        r.push(String::from_str("-no-custom"));
        assert(texts(r@) =~= self.picker_arguments());
        r
    }

    /// The action of the option labelled `label`.
    pub fn find_option(&self, label: &str) -> (r: Result<&Action, RunError>)
        ensures
            chosen(self, label@, r),
    {
        proof {
            use_type_invariant(self);
            lemma_resolve_find(entries_of(self.options), self.actions@, label@);
            lemma_find_in(entries_of(self.options), label@);
        }
        match label_map_get(&self.options, label) {
            Some(i) => Ok(&self.actions[i]),
            None => Err(RunError::UnmappedSelection(String::from_str(label))),
        }
    }

    /// Resolves the picker's output: empty output ends the chain, any other
    /// names an option once its trailing whitespace is removed.
    pub fn select(&self, output: &str) -> (r: Result<Option<&Action>, RunError>)
        ensures
            selected(self, output@, r),
    {
        if output.is_empty() {
            return Ok(None);
        }
        match self.find_option(trim_trailing(output)) {
            Ok(a) => Ok(Some(a)),
            Err(e) => Err(e),
        }
    }
}

impl Action {
    /// The process to run for this action.
    pub fn request(&self) -> (r: Request)
        ensures
            match self {
                Action::Command(c) => r.program@ == c.program() && texts(r.args@) == c.arguments()
                    && r.input is None,
                Action::Menu(m) => r.program@ == picker_program() && texts(r.args@)
                    == m.picker_arguments() && (r.input matches Some(t) && t@ == lines(m.labels())),
            },
    {
        match self {
            Action::Command(c) => Request {
                program: c.command.clone(),
                args: copy_texts(&c.args),
                input: None,
            },
            Action::Menu(m) => {
                proof {
                    reveal_strlit("/usr/bin/rofi");
                }
                Request {
                    program: String::from_str("/usr/bin/rofi"),
                    args: m.picker_args(),
                    input: Some(m.optionstring()),
                }
            },
        }
    }

    /// The next action, from what came of running this one's request: a
    /// command ends the chain, a menu goes on with the option picked.
    pub fn resume(&self, outcome: &Outcome) -> (r: Result<Option<&Action>, RunError>)
        ensures
            outcome is SpawnFailed ==> r matches Err(RunError::Spawn),
            outcome is IoFailed ==> r matches Err(RunError::Io),
            outcome matches Outcome::Finished(out) ==> match self {
                Action::Command(_) => r matches Ok(None),
                Action::Menu(m) => selected(m, out@, r),
            },
    {
        match outcome {
            Outcome::SpawnFailed => Err(RunError::Spawn),
            Outcome::IoFailed => Err(RunError::Io),
            Outcome::Finished(out) => match self {
                Action::Command(_) => Ok(None),
                Action::Menu(m) => m.select(out.as_str()),
            },
        }
    }
}

/// The number of line breaks in a text.
pub open spec fn newline_count(s: Seq<char>) -> nat
    decreases s.len(),
{
    if s.len() == 0 {
        0
    } else {
        newline_count(s.drop_last()) + if s.last() == '\n' { 1nat } else { 0nat }
    }
}

/// No line of the text is empty: it does not start with a line break, and
/// no line break follows another.
pub open spec fn no_blank_lines(s: Seq<char>) -> bool {
    &&& s.len() > 0 ==> s[0] != '\n'
    &&& forall|k: int| 0 <= k < s.len() - 1 && s[k] == '\n' ==> #[trigger] s[k + 1] != '\n'
}

proof fn lemma_newline_count_concat(a: Seq<char>, b: Seq<char>)
    ensures
        newline_count(a + b) == newline_count(a) + newline_count(b),
    decreases b.len(),
{
    if b.len() == 0 {
        assert(a + b =~= a);
    } else {
        lemma_newline_count_concat(a, b.drop_last());
        assert((a + b).drop_last() =~= a + b.drop_last());
    }
}

proof fn lemma_lines_shape(ls: Seq<Seq<char>>)
    requires
        forall|i: int| 0 <= i < ls.len() ==> (#[trigger] ls[i]).len() > 0 && !ls[i].contains('\n'),
    ensures
        newline_count(lines(ls)) == ls.len(),
        no_blank_lines(lines(ls)),
        ls.len() > 0 ==> lines(ls).last() == '\n',
    decreases ls.len(),
{
    if ls.len() > 0 {
        let prev = ls.drop_last();
        let l = ls.last();
        assert(forall|i: int| 0 <= i < prev.len() ==> prev[i] == ls[i]);
        lemma_lines_shape(prev);
        let p = lines(prev);
        let s = lines(ls);
        assert(s == p + l + seq!['\n']);
        lemma_newline_count_concat(p + l, seq!['\n']);
        lemma_newline_count_concat(p, l);
        assert(newline_count(l) == 0) by {
            lemma_no_newline_count(l);
        }
        assert(newline_count(seq!['\n']) == 1) by {
            assert(seq!['\n'].drop_last() =~= Seq::<char>::empty());
            assert(newline_count(Seq::<char>::empty()) == 0);
            assert(seq!['\n'].last() == '\n');
        }
        assert(ls[ls.len() - 1] == l);
        assert forall|k: int| 0 <= k < s.len() - 1 && s[k] == '\n' implies #[trigger] s[k + 1] != '\n' by {
            if k < p.len() - 1 {
                assert(s[k] == p[k] && s[k + 1] == p[k + 1]);
            } else if k == p.len() - 1 {
                assert(s[k + 1] == l[0]);
            } else {
                assert(s[k] == l[k - p.len()]);
            }
        }
        if p.len() == 0 {
            assert(s[0] == l[0]);
        } else {
            assert(s[0] == p[0]);
        }
    }
}

/// The index of the first line break at or after `i`.
pub open spec fn newline_from(s: Seq<char>, i: int) -> Option<int>
    decreases s.len() - i,
{
    if i < 0 || i >= s.len() {
        None
    } else if s[i] == '\n' {
        Some(i)
    } else {
        newline_from(s, i + 1)
    }
}

/// The lines of a text, each without its line break; a last line without
/// one counts too.
pub open spec fn split_lines(s: Seq<char>) -> Seq<Seq<char>>
    decreases s.len(),
{
    if s.len() == 0 {
        Seq::empty()
    } else {
        match newline_from(s, 0) {
            Some(i) => if 0 <= i < s.len() {
                seq![s.take(i)] + split_lines(s.skip(i + 1))
            } else {
                seq![s]
            },
            None => seq![s],
        }
    }
}

proof fn lemma_lines_front(ls: Seq<Seq<char>>)
    requires
        ls.len() > 0,
    ensures
        lines(ls) == ls[0] + seq!['\n'] + lines(ls.drop_first()),
    decreases ls.len(),
{
    if ls.len() == 1 {
        assert(ls.drop_last() =~= Seq::<Seq<char>>::empty());
        assert(ls.drop_first() =~= Seq::<Seq<char>>::empty());
        assert(lines(Seq::<Seq<char>>::empty()) == Seq::<char>::empty());
        assert(lines(ls) =~= ls[0] + seq!['\n'] + lines(ls.drop_first()));
    } else {
        lemma_lines_front(ls.drop_last());
        assert(ls.drop_last().drop_first() =~= ls.drop_first().drop_last());
        assert(ls.drop_first().last() == ls.last());
        assert(ls.drop_last()[0] == ls[0]);
        assert(lines(ls) =~= ls[0] + seq!['\n'] + lines(ls.drop_first()));
    }
}

proof fn lemma_newline_after(a: Seq<char>, b: Seq<char>, j: int)
    requires
        !a.contains('\n'),
        0 <= j <= a.len(),
    ensures
        newline_from(a + seq!['\n'] + b, j) == Some(a.len() as int),
    decreases a.len() - j,
{
    let s = a + seq!['\n'] + b;
    if j < a.len() {
        assert(s[j] == a[j]);
        lemma_newline_after(a, b, j + 1);
    } else {
        assert(s[j] == '\n');
    }
}

proof fn lemma_split_lines(ls: Seq<Seq<char>>)
    requires
        forall|i: int| 0 <= i < ls.len() ==> !(#[trigger] ls[i]).contains('\n'),
    ensures
        split_lines(lines(ls)) == ls,
    decreases ls.len(),
{
    if ls.len() > 0 {
        lemma_lines_front(ls);
        let rest = lines(ls.drop_first());
        let s = lines(ls);
        assert(!ls[0].contains('\n'));
        lemma_newline_after(ls[0], rest, 0);
        assert(s.take(ls[0].len() as int) =~= ls[0]);
        assert(s.skip(ls[0].len() as int + 1) =~= rest);
        assert(forall|i: int| 0 <= i < ls.drop_first().len() ==> ls.drop_first()[i] == ls[i + 1]);
        lemma_split_lines(ls.drop_first());
        assert(seq![ls[0]] + ls.drop_first() =~= ls);
    } else {
        assert(lines(ls) == Seq::<char>::empty());
    }
}

/// The picker's input has one line per option, in display order, and no
/// blank line, as long as every label is a non-empty text without line
/// breaks.
pub proof fn lemma_picker_lines(m: &RofiMenu)
    requires
        forall|i: int|
            0 <= i < m.labels().len() ==> (#[trigger] m.labels()[i]).len() > 0
                && !m.labels()[i].contains('\n'),
    ensures
        newline_count(lines(m.labels())) == m.options().len(),
        no_blank_lines(lines(m.labels())),
        m.options().len() > 0 ==> lines(m.labels()).last() == '\n',
        split_lines(lines(m.labels())) == m.labels(),
{
    lemma_lines_shape(m.labels());
    lemma_split_lines(m.labels());
}

proof fn lemma_no_newline_count(s: Seq<char>)
    requires
        !s.contains('\n'),
    ensures
        newline_count(s) == 0,
    decreases s.len(),
{
    if s.len() > 0 {
        assert(!s.drop_last().contains('\n')) by {
            if s.drop_last().contains('\n') {
                let k = choose|k: int| 0 <= k < s.drop_last().len() && s.drop_last()[k] == '\n';
                assert(s[k] == '\n');
            }
        }
        lemma_no_newline_count(s.drop_last());
        assert(s[s.len() - 1] == s.last());
    }
}

/// Removing a label that is not there changes nothing.
pub proof fn lemma_remove_absent(ls: Seq<Seq<char>>, l: Seq<char>)
    requires
        !ls.contains(l),
    ensures
        remove_label(ls, l) == ls,
    decreases ls.len(),
{
    if ls.len() > 0 {
        assert(!ls.drop_first().contains(l)) by {
            if ls.drop_first().contains(l) {
                let k = choose|k: int| 0 <= k < ls.drop_first().len() && ls.drop_first()[k] == l;
                assert(ls[k + 1] == l);
            }
        }
        lemma_remove_absent(ls.drop_first(), l);
        assert(ls[0] != l);
        assert(seq![ls[0]] + ls.drop_first() =~= ls);
    }
}

/// A label leads to an option exactly when it is one of the labels.
pub proof fn lemma_option_iff_label(s: Seq<(Seq<char>, Action)>, l: Seq<char>)
    ensures
        option_for(s, l) is Some <==> labels_of(s).contains(l),
    decreases s.len(),
{
    if s.len() > 0 {
        lemma_option_iff_label(s.drop_first(), l);
        assert(labels_of(s) =~= seq![s[0].0] + labels_of(s.drop_first()));
        if labels_of(s.drop_first()).contains(l) {
            let k = choose|k: int| 0 <= k < labels_of(s.drop_first()).len() && labels_of(s.drop_first())[k] == l;
            assert(labels_of(s)[k + 1] == l);
        }
        if s[0].0 == l {
            assert(labels_of(s)[0] == l);
        }
        if labels_of(s).contains(l) && s[0].0 != l {
            let k = choose|k: int| 0 <= k < labels_of(s).len() && labels_of(s)[k] == l;
            assert(labels_of(s.drop_first())[k - 1] == l);
        }
    } else {
        assert(labels_of(s).len() == 0);
    }
}

/// A picker output whose text, without trailing whitespace, is none of the
/// menu's labels gives `UnmappedSelection` with that text.
pub proof fn lemma_unmapped_selection(m: &RofiMenu, out: Seq<char>, r: Result<Option<&Action>, RunError>)
    requires
        out.len() > 0,
        !m.labels().contains(trimmed_end(out)),
        selected(m, out, r),
    ensures
        r matches Err(RunError::UnmappedSelection(s)) && s@ == trimmed_end(out),
{
    lemma_option_iff_label(m.options(), trimmed_end(out));
}

/// An empty picker output ends the chain without error, whatever the options.
pub proof fn lemma_cancelled_picker(m: &RofiMenu, r: Result<Option<&Action>, RunError>)
    requires
        selected(m, Seq::empty(), r),
    ensures
        r matches Ok(None),
{
}

/// Picking an option whose action is itself a menu leads on to that menu
/// rather than ending the chain.
pub proof fn lemma_nested_menu(m: &RofiMenu, out: Seq<char>, r: Result<Option<&Action>, RunError>, inner: RofiMenu)
    requires
        out.len() > 0,
        m.option(trimmed_end(out)) == Some(Action::Menu(inner)),
        selected(m, out, r),
    ensures
        r matches Ok(Some(a)) && *a == Action::Menu(inner),
{
}

} // verus!
