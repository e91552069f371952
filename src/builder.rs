use crate::action::{
    labels_of, lemma_labels_added, lemma_option_added, lemma_remove_absent, remove_label, texts,
    Action, RofiCommand, RofiMenu,
};
use crate::labels::{
    entries_of, find, label_map_get, label_map_insert, label_map_new, lemma_find_in,
    lemma_find_inserted, lemma_inserted_bounded,
};
use crate::value::{lemma_field_decreases, lemma_items_decrease, Value};
use linked_hash_map::LinkedHashMap;
use vstd::prelude::*;

verus! {

/// Why a configuration could not be built into actions.
#[derive(Debug)]
pub enum BuildError {
    /// A node has no `type` field.
    MissingType,
    /// A node's `type` field is not text.
    InvalidTypeField,
    /// A required field is missing or of the wrong kind; the text says which.
    Malformed(String),
    /// No constructor is registered for this type tag.
    UnknownActionType(String),
}

/// A constructor for actions of a type tag that is not built in.
pub trait SubBuilder {
    /// `r` is a result this constructor may give for node `config`; unless
    /// an implementation says more, any result.
    open spec fn builds(&self, config: Value, r: Result<Action, BuildError>) -> bool {
        true
    }

    fn build(&self, config: &Value) -> (r: Result<Action, BuildError>)
        ensures
            self.builds(*config, r),
    ;
}

/// The text of field `k` of `v`.
pub open spec fn field_text(v: Value, k: Seq<char>) -> Option<Seq<char>> {
    match v.field(k) {
        Some(x) => x.text(),
        None => None,
    }
}

/// The elements of the sequence in field `k` of `v`.
pub open spec fn field_items(v: Value, k: Seq<char>) -> Option<Seq<Value>> {
    match v.field(k) {
        Some(x) => x.items(),
        None => None,
    }
}

/// The text elements of a sequence, in order; the others are left out.
pub open spec fn text_items(items: Seq<Value>) -> Seq<Seq<char>>
    decreases items.len(),
{
    if items.len() == 0 {
        Seq::empty()
    } else {
        match items.last().text() {
            Some(t) => text_items(items.drop_last()).push(t),
            None => text_items(items.drop_last()),
        }
    }
}

/// The first missing or mistyped field of a command node.
pub open spec fn command_fault(v: Value) -> Option<Seq<char>> {
    if v.field("command"@) is None {
        Some("Command has no command"@)
    } else if field_text(v, "command"@) is None {
        Some("Command is not a string"@)
    } else if v.field("args"@) is None {
        Some("Command has no args"@)
    } else if field_items(v, "args"@) is None {
        Some("Args is not a sequence"@)
    } else {
        None
    }
}

/// The first missing or mistyped field of a menu node itself.
pub open spec fn menu_fault(v: Value) -> Option<Seq<char>> {
    if v.field("name"@) is None {
        Some("Menu has no name"@)
    } else if field_text(v, "name"@) is None {
        Some("Name is not a string"@)
    } else if v.field("prompt"@) is None {
        Some("Menu has no prompt"@)
    } else if field_text(v, "prompt"@) is None {
        Some("Prompt is not a string"@)
    } else if v.field("options"@) is None {
        Some("Menu has no options"@)
    } else if field_items(v, "options"@) is None {
        Some("Options is not a sequence"@)
    } else {
        None
    }
}

/// The first missing or mistyped field of a menu option.
pub open spec fn option_fault(item: Value) -> Option<Seq<char>> {
    if item.field("string"@) is None {
        Some("Menu option has no string"@)
    } else if field_text(item, "string"@) is None {
        Some("Menu option string is not a string"@)
    } else if item.field("action"@) is None {
        Some("Menu option has no action"@)
    } else {
        None
    }
}

/// Every element of an option list that is a mapping is a complete option.
pub open spec fn options_sound(items: Seq<Value>) -> bool {
    forall|j: int| 0 <= j < items.len() && (#[trigger] items[j]) is Mapping ==> option_fault(items[j]) is None
}

/// The label of an option element; elements that are not mappings have none.
pub open spec fn option_label(item: Value) -> Option<Seq<char>> {
    if item is Mapping {
        field_text(item, "string"@)
    } else {
        None
    }
}

/// The labels a menu built from these option elements shows, in order: a
/// label given again leaves its place and comes last.
pub open spec fn option_labels(items: Seq<Value>) -> Seq<Seq<char>>
    decreases items.len(),
{
    if items.len() == 0 {
        Seq::empty()
    } else {
        match option_label(items.last()) {
            Some(l) => remove_label(option_labels(items.drop_last()), l).push(l),
            None => option_labels(items.drop_last()),
        }
    }
}

/// The action node of the last option element labelled `l`.
pub open spec fn action_value_for(items: Seq<Value>, l: Seq<char>) -> Option<Value>
    decreases items.len(),
{
    if items.len() == 0 {
        None
    } else if option_label(items.last()) == Some(l) {
        items.last().field("action"@)
    } else {
        action_value_for(items.drop_last(), l)
    }
}

/// The type tag of a node.
pub open spec fn tag_of(v: Value) -> Option<Seq<char>> {
    field_text(v, "type"@)
}

/// `v` is a tree of at most `depth` menu levels, of built-in node types
/// only, each with every required field present and of the right kind.
pub open spec fn builtin_tree(v: Value, depth: nat) -> bool
    decreases depth,
{
    if tag_of(v) == Some("Command"@) {
        command_fault(v) is None
    } else if tag_of(v) == Some("Menu"@) {
        &&& depth > 0
        &&& menu_fault(v) is None
        &&& options_sound(field_items(v, "options"@).unwrap())
        &&& forall|j: int|
            0 <= j < field_items(v, "options"@).unwrap().len() && (#[trigger] field_items(
                v,
                "options"@,
            ).unwrap()[j]) is Mapping ==> builtin_tree(
                field_items(v, "options"@).unwrap()[j].field("action"@).unwrap(),
                (depth - 1) as nat,
            )
    } else {
        false
    }
}

/// `c` runs the program node `v` names, with the text elements of its
/// arguments.
pub open spec fn command_describes(c: RofiCommand, v: Value) -> bool {
    Some(c.program()) == field_text(v, "command"@) && (field_items(v, "args"@) matches Some(items)
        && c.arguments() == text_items(items))
}

/// `m` has the name, prompt and labels of menu node `v`.
pub open spec fn menu_describes(m: RofiMenu, v: Value) -> bool {
    Some(m.name_text()) == field_text(v, "name"@) && Some(m.prompt_text()) == field_text(
        v,
        "prompt"@,
    ) && (field_items(v, "options"@) matches Some(items) && m.labels() == option_labels(items))
}

/// The successful build result `x`.
pub open spec fn success(x: Action) -> Result<Action, BuildError> {
    Ok(x)
}

/// What building a command node gives.
pub open spec fn command_built(v: Value, r: Result<Action, BuildError>) -> bool {
    match command_fault(v) {
        Some(msg) => r matches Err(BuildError::Malformed(m)) && m@ == msg,
        None => r matches Ok(Action::Command(c)) && command_describes(c, v),
    }
}

/// The action node an option label leads to is that of one of the elements.
pub proof fn lemma_action_value_in(items: Seq<Value>, l: Seq<char>)
    ensures
        action_value_for(items, l) matches Some(w) ==> exists|j: int|
            0 <= j < items.len() && (#[trigger] items[j]).field("action"@) == Some(w),
    decreases items.len(),
{
    if items.len() > 0 {
        lemma_action_value_in(items.drop_last(), l);
        if option_label(items.last()) == Some(l) {
            assert(items[items.len() - 1] == items.last());
        } else if action_value_for(items, l) is Some {
            let w = action_value_for(items, l)->Some_0;
            let j = choose|j: int|
                0 <= j < items.drop_last().len() && (#[trigger] items.drop_last()[j]).field("action"@) == Some(w);
            assert(items[j] == items.drop_last()[j]);
        }
    }
}

/// The action nodes of a menu node's options are smaller than the node.
proof fn lemma_option_actions_decrease(v: Value)
    ensures
        field_items(v, "options"@) matches Some(items) ==> (forall|j: int|
            0 <= j < items.len() ==> ((#[trigger] items[j]).field("action"@) matches Some(w)
                ==> decreases_to!(v => w))) && (forall|l: Seq<char>|
            #[trigger] action_value_for(items, l) matches Some(w) ==> decreases_to!(v => w)),
{
    lemma_field_decreases(v, "options"@);
    if field_items(v, "options"@) is Some {
        let o = v.field("options"@)->Some_0;
        let items = field_items(v, "options"@)->Some_0;
        lemma_items_decrease(o);
        assert forall|j: int|
            0 <= j < items.len() && (#[trigger] items[j]).field("action"@) is Some implies decreases_to!(
            v => items[j].field("action"@)->Some_0) by {
            lemma_field_decreases(items[j], "action"@);
        }
        assert forall|l: Seq<char>| #[trigger] action_value_for(items, l) is Some implies decreases_to!(
            v => action_value_for(items, l)->Some_0) by {
            lemma_action_value_in(items, l);
            let w = action_value_for(items, l)->Some_0;
            let j = choose|j: int| 0 <= j < items.len() && (#[trigger] items[j]).field("action"@) == Some(w);
            lemma_field_decreases(items[j], "action"@);
        }
    }
}

/// Builds a tree of actions from a configuration, with a registry of
/// constructors for type tags that are not built in.
pub struct Builder<B> {
    /// Each registered tag, with the index of its constructor.
    sub_builders: LinkedHashMap<String, usize>,
    constructors: Vec<B>,
}

impl<B> Builder<B> {
    #[verifier::type_invariant]
    spec fn indices_in_range(self) -> bool {
        forall|i: int|
            0 <= i < entries_of(self.sub_builders).len() ==> #[trigger] entries_of(
                self.sub_builders,
            )[i].1 < self.constructors@.len()
    }

    /// The constructor registered for `tag`.
    pub closed spec fn constructor(&self, tag: Seq<char>) -> Option<B> {
        match find(entries_of(self.sub_builders), tag) {
            Some(i) => Some(self.constructors@[i as int]),
            None => None,
        }
    }

}

impl<B: SubBuilder> Builder<B> {
    /// A builder with no constructors registered.
    pub fn new() -> (r: Builder<B>)
        ensures
            forall|tag: Seq<char>| #[trigger] r.constructor(tag) is None,
    {
        Builder { sub_builders: label_map_new(), constructors: Vec::new() }
    }

    /// Registers `subbuilder` for `type_str`, in place of any constructor
    /// registered for it before.
    pub fn add_subbuilder(&mut self, type_str: String, subbuilder: B)
        ensures
            final(self).constructor(type_str@) == Some(subbuilder),
            forall|tag: Seq<char>|
                tag != type_str@ ==> #[trigger] final(self).constructor(tag) == old(self).constructor(
                    tag,
                ),
    {
        proof {
            use_type_invariant(&*self);
        }
        let ghost old_entries = entries_of(self.sub_builders);
        let ghost old_constructors = self.constructors@;
        let ghost t = type_str@;
        let mut sub_builders = label_map_new();
        std::mem::swap(&mut sub_builders, &mut self.sub_builders);
        let mut constructors: Vec<B> = Vec::new();
        std::mem::swap(&mut constructors, &mut self.constructors);
        let n = constructors.len();
        constructors.push(subbuilder);
        label_map_insert(&mut sub_builders, type_str, n);
        proof {
            lemma_inserted_bounded(old_entries, t, n, constructors@.len() as int);
            assert forall|tag: Seq<char>| true implies find(entries_of(sub_builders), tag) == (if tag
                == t {
                Some(n)
            } else {
                find(old_entries, tag)
            }) by {
                lemma_find_inserted(old_entries, t, n, tag);
            }
            assert forall|tag: Seq<char>| #[trigger] find(old_entries, tag) is Some implies find(
                old_entries,
                tag,
            )->Some_0 < n by {
                lemma_find_in(old_entries, tag);
            }
        }
        self.constructors = constructors;
        self.sub_builders = sub_builders;
    }

    /// What building menu node `v` gives. A fault of the node itself comes
    /// first. Then the option elements are taken in order: the first that
    /// is incomplete gives its fault, or the first whose action node fails
    /// to build gives that error unchanged. Otherwise the menu has the
    /// node's name, prompt and labels, and each option leads to a result of
    /// building the action node of the last element with its label.
    pub open spec fn menu_outcome(&self, v: Value, r: Result<Action, BuildError>) -> bool
        decreases v, 0int
        via Self::menu_outcome_decreases
    {
        match menu_fault(v) {
            Some(msg) => r matches Err(BuildError::Malformed(m)) && m@ == msg,
            None => {
                let items = field_items(v, "options"@).unwrap();
                match r {
                    Ok(a) => (forall|j: int|
                        0 <= j < items.len() && (#[trigger] items[j]) is Mapping ==> option_fault(items[j])
                            is None && exists|x: Action|
                            self.outcome(items[j].field("action"@).unwrap(), #[trigger] success(x)))
                        && (a matches Action::Menu(m) && menu_describes(m, v) && forall|l: Seq<char>|
                        #[trigger] m.option(l) matches Some(x) ==> (action_value_for(items, l) matches Some(w)
                            && self.outcome(w, Ok(x)))),
                    Err(e) => exists|j: int|
                        0 <= j < items.len() && (#[trigger] items[j]) is Mapping && (forall|k: int|
                            0 <= k < j && (#[trigger] items[k]) is Mapping ==> option_fault(items[k]) is None
                                && exists|x: Action| self.outcome(items[k].field("action"@).unwrap(), #[trigger] success(x)))
                            && match option_fault(items[j]) {
                            Some(msg) => e matches BuildError::Malformed(m) && m@ == msg,
                            None => self.outcome(items[j].field("action"@).unwrap(), Err(e)),
                        },
                }
            },
        }
    }

    #[via_fn]
    proof fn menu_outcome_decreases(&self, v: Value, r: Result<Action, BuildError>) {
        lemma_option_actions_decrease(v);
    }

    /// What building node `v` gives: its built-in construction for the
    /// `Command` and `Menu` tags, whatever a constructor may give for a
    /// registered tag, and an error otherwise.
    pub open spec fn outcome(&self, v: Value, r: Result<Action, BuildError>) -> bool
        decreases v, 1int,
    {
        match v.field("type"@) {
            None => r matches Err(BuildError::MissingType),
            Some(t) => match t.text() {
                None => r matches Err(BuildError::InvalidTypeField),
                Some(tag) => if tag == "Command"@ {
                    command_built(v, r)
                } else if tag == "Menu"@ {
                    self.menu_outcome(v, r)
                } else {
                    match self.constructor(tag) {
                        Some(f) => f.builds(v, r),
                        None => r matches Err(BuildError::UnknownActionType(u)) && u@ == tag,
                    }
                },
            },
        }
    }

    /// Builds a command from its node.
    pub fn build_command(&self, v: &Value) -> (r: Result<Action, BuildError>)
        ensures
            command_built(*v, r),
    {
        let command = match v.get("command") {
            Some(c) => c,
            None => return Err(BuildError::Malformed(String::from_str("Command has no command"))),
        };
        let command = match command.as_str() {
            Some(c) => String::from_str(c),
            None => return Err(BuildError::Malformed(String::from_str("Command is not a string"))),
        };
        let args = match v.get("args") {
            Some(a) => a,
            None => return Err(BuildError::Malformed(String::from_str("Command has no args"))),
        };
        let args = match args.as_sequence() {
            Some(a) => a,
            None => return Err(BuildError::Malformed(String::from_str("Args is not a sequence"))),
        };
        let mut texts_out: Vec<String> = Vec::new();
        let mut i: usize = 0;
        while i < args.len()
            invariant
                i <= args@.len(),
                texts(texts_out@) == text_items(args@.take(i as int)),
            decreases args.len() - i,
        {
            assert(args@.take(i + 1).drop_last() =~= args@.take(i as int));
            match args[i].as_str() {
                Some(s) => {
                    texts_out.push(String::from_str(s));
                    assert(texts(texts_out@) =~= text_items(args@.take(i as int)).push(s@));
                },
                None => {},
            }
            i = i + 1;
        }
        assert(args@.take(args@.len() as int) =~= args@);
        Ok(Action::Command(RofiCommand::new(command, texts_out)))
    }

    /// Builds a menu from its node, each option's action built in turn;
    /// elements of the option list that are not mappings are skipped.
    pub fn build_menu(&self, v: &Value) -> (r: Result<Action, BuildError>)
        ensures
            self.menu_outcome(*v, r),
            forall|d: nat| tag_of(*v) == Some("Menu"@) && #[trigger] builtin_tree(*v, d) ==> r is Ok,
        decreases *v, 0int,
    {
        proof {
            reveal_strlit("Command");
            reveal_strlit("Menu");
            assert("Command"@.len() != "Menu"@.len());
        }
        let name = match v.get("name") {
            Some(x) => x,
            None => return Err(BuildError::Malformed(String::from_str("Menu has no name"))),
        };
        let name = match name.as_str() {
            Some(x) => String::from_str(x),
            None => return Err(BuildError::Malformed(String::from_str("Name is not a string"))),
        };
        let prompt = match v.get("prompt") {
            Some(x) => x,
            None => return Err(BuildError::Malformed(String::from_str("Menu has no prompt"))),
        };
        let prompt = match prompt.as_str() {
            Some(x) => String::from_str(x),
            None => return Err(BuildError::Malformed(String::from_str("Prompt is not a string"))),
        };
        let options = match v.get("options") {
            Some(x) => x,
            None => return Err(BuildError::Malformed(String::from_str("Menu has no options"))),
        };
        let items = match options.as_sequence() {
            Some(x) => x,
            None => return Err(
                BuildError::Malformed(String::from_str("Options is not a sequence")),
            ),
        };
        let ghost iv = items@;
        assert(iv == field_items(*v, "options"@).unwrap());
        let mut menu = RofiMenu::new(name, prompt);
        assert(option_labels(iv.take(0)) =~= Seq::<Seq<char>>::empty());
        assert(menu.labels() =~= Seq::<Seq<char>>::empty());
        let mut i: usize = 0;
        while i < items.len()
            invariant
                i <= iv.len(),
                iv == items@,
                iv == field_items(*v, "options"@).unwrap(),
                menu_fault(*v) is None,
                "Command"@ != "Menu"@,
                forall|j: int| 0 <= j < iv.len() ==> decreases_to!(*v => #[trigger] iv[j]),
                Some(menu.name_text()) == field_text(*v, "name"@),
                Some(menu.prompt_text()) == field_text(*v, "prompt"@),
                menu.labels() == option_labels(iv.take(i as int)),
                forall|k: int|
                    0 <= k < i && (#[trigger] iv[k]) is Mapping ==> option_fault(iv[k]) is None
                        && exists|x: Action| self.outcome(iv[k].field("action"@).unwrap(), #[trigger] success(x)),
                forall|l: Seq<char>| #[trigger]
                    menu.option(l) matches Some(x) ==> (action_value_for(iv.take(i as int), l) matches Some(
                        w,
                    ) && self.outcome(w, Ok(x))),
            decreases items.len() - i,
        {
            let ghost before = iv.take(i as int);
            let ghost after = iv.take(i + 1);
            assert(after.drop_last() =~= before);
            assert(after.last() == iv[i as int]);
            let opt = &items[i];
            if opt.is_mapping() {
                proof {
                    assert forall|d: nat| tag_of(*v) == Some("Menu"@) && #[trigger] builtin_tree(
                        *v,
                        d,
                    ) implies option_fault(iv[i as int]) is None by {
                        assert(options_sound(iv));
                    }
                }
                let label = match opt.get("string") {
                    Some(x) => x,
                    None => {
                        let r = Err(BuildError::Malformed(String::from_str("Menu option has no string")));
                        proof {
                            lemma_menu_error_at(self, *v, i as int, r->Err_0);
                        }
                        return r;
                    },
                };
                let label = match label.as_str() {
                    Some(x) => x,
                    None => {
                        let r = Err(
                            BuildError::Malformed(String::from_str("Menu option string is not a string")),
                        );
                        proof {
                            lemma_menu_error_at(self, *v, i as int, r->Err_0);
                        }
                        return r;
                    },
                };
                let action = match opt.get("action") {
                    Some(x) => x,
                    None => {
                        let r = Err(BuildError::Malformed(String::from_str("Menu option has no action")));
                        proof {
                            lemma_menu_error_at(self, *v, i as int, r->Err_0);
                        }
                        return r;
                    },
                };
                assert(decreases_to!(*v => *opt));
                let built = match self.build_action(action) {
                    Ok(a) => a,
                    Err(e) => {
                        proof {
                            assert forall|d: nat|
                                !(tag_of(*v) == Some("Menu"@) && #[trigger] builtin_tree(*v, d)) by {
                                if tag_of(*v) == Some("Menu"@) && builtin_tree(*v, d) {
                                    assert(iv[i as int] is Mapping);
                                    assert(builtin_tree(*action, (d - 1) as nat));
                                }
                            }
                        }
                        let r = Err(e);
                        proof {
                            lemma_menu_error_at(self, *v, i as int, r->Err_0);
                        }
                        return r;
                    },
                };
                let ghost old_opts = menu.options();
                let ghost old_menu = menu;
                menu.add_option(String::from_str(label), built);
                proof {
                    lemma_labels_added(old_opts, label@, built);
                    assert(self.outcome(iv[i as int].field("action"@).unwrap(), success(built)));
                    assert forall|l: Seq<char>| #[trigger] menu.option(l) is Some implies (action_value_for(
                        after,
                        l,
                    ) matches Some(w) && self.outcome(w, Ok(menu.option(l)->Some_0))) by {
                        lemma_option_added(old_opts, label@, built, l);
                        if l != label@ {
                            assert(old_menu.option(l) == menu.option(l));
                        }
                    }
                }
            }
            i = i + 1;
        }
        assert(iv.take(iv.len() as int) =~= iv);
        let r = Ok(Action::Menu(menu));
        proof {
            lemma_menu_ok(self, *v, menu);
        }
        r
    }

    /// Builds the action tree that node `v` describes: a command, a menu, or
    /// what the constructor registered for its type tag makes of it.
    pub fn build_action(&self, v: &Value) -> (r: Result<Action, BuildError>)
        ensures
            self.outcome(*v, r),
            forall|d: nat| #[trigger] builtin_tree(*v, d) ==> r is Ok,
        decreases *v, 1int,
    {
        let t = match v.get("type") {
            Some(t) => t,
            None => return Err(BuildError::MissingType),
        };
        let t = match t.as_str() {
            Some(t) => t,
            None => return Err(BuildError::InvalidTypeField),
        };
        let tag = String::from_str(t);
        if tag == String::from_str("Command") {
            self.build_command(v)
        } else if tag == String::from_str("Menu") {
            self.build_menu(v)
        } else {
            proof {
                use_type_invariant(self);
                lemma_find_in(entries_of(self.sub_builders), t@);
            }
            match label_map_get(&self.sub_builders, t) {
                Some(i) => self.constructors[i].build(v),
                None => Err(BuildError::UnknownActionType(tag)),
            }
        }
    }
}

/// The first element of an option list that fails decides a menu's error.
proof fn lemma_menu_error_at<B: SubBuilder>(b: &Builder<B>, v: Value, i: int, e: BuildError)
    requires
        menu_fault(v) is None,
        field_items(v, "options"@) is Some,
        0 <= i < field_items(v, "options"@).unwrap().len(),
        field_items(v, "options"@).unwrap()[i] is Mapping,
        forall|k: int|
            0 <= k < i && (#[trigger] field_items(v, "options"@).unwrap()[k]) is Mapping
                ==> option_fault(field_items(v, "options"@).unwrap()[k]) is None && exists|x: Action|
                b.outcome(field_items(v, "options"@).unwrap()[k].field("action"@).unwrap(), #[trigger] success(x)),
        match option_fault(field_items(v, "options"@).unwrap()[i]) {
            Some(msg) => e matches BuildError::Malformed(m) && m@ == msg,
            None => b.outcome(field_items(v, "options"@).unwrap()[i].field("action"@).unwrap(), Err(e)),
        },
    ensures
        b.menu_outcome(v, Err(e)),
{
    let items = field_items(v, "options"@).unwrap();
    assert(items[i] is Mapping);
}

/// A menu built from complete options whose actions all build is what a
/// menu node gives.
proof fn lemma_menu_ok<B: SubBuilder>(b: &Builder<B>, v: Value, m: RofiMenu)
    requires
        menu_fault(v) is None,
        field_items(v, "options"@) is Some,
        forall|k: int|
            0 <= k < field_items(v, "options"@).unwrap().len() && (#[trigger] field_items(
                v,
                "options"@,
            ).unwrap()[k]) is Mapping ==> option_fault(field_items(v, "options"@).unwrap()[k])
                is None && exists|x: Action|
                b.outcome(field_items(v, "options"@).unwrap()[k].field("action"@).unwrap(), #[trigger] success(x)),
        menu_describes(m, v),
        forall|l: Seq<char>| #[trigger]
            m.option(l) matches Some(x) ==> (action_value_for(field_items(v, "options"@).unwrap(), l) matches Some(
                w,
            ) && b.outcome(w, Ok(x))),
    ensures
        b.menu_outcome(v, Ok(Action::Menu(m))),
{
}

/// The number of mapping elements of an option list.
pub open spec fn mapping_count(items: Seq<Value>) -> nat
    decreases items.len(),
{
    if items.len() == 0 {
        0
    } else {
        mapping_count(items.drop_last()) + if items.last() is Mapping { 1nat } else { 0nat }
    }
}

/// No two mapping elements of an option list carry the same label.
pub open spec fn distinct_labels(items: Seq<Value>) -> bool {
    forall|j: int, k: int|
        0 <= j < k < items.len() && (#[trigger] items[j]) is Mapping && (#[trigger] items[k]) is Mapping
            ==> option_label(items[j]) != option_label(items[k])
}

proof fn lemma_option_labels_count(items: Seq<Value>)
    requires
        options_sound(items),
        distinct_labels(items),
    ensures
        option_labels(items).len() == mapping_count(items),
        forall|x: Seq<char>|
            #[trigger] option_labels(items).contains(x) ==> exists|j: int|
                0 <= j < items.len() && (#[trigger] items[j]) is Mapping && option_label(items[j])
                    == Some(x),
    decreases items.len(),
{
    if items.len() > 0 {
        let prev = items.drop_last();
        let last = items.last();
        assert(forall|j: int| 0 <= j < prev.len() ==> prev[j] == items[j]);
        assert(options_sound(prev)) by {
            assert forall|j: int| 0 <= j < prev.len() && (#[trigger] prev[j]) is Mapping implies option_fault(
                prev[j],
            ) is None by {
                assert(prev[j] == items[j]);
            }
        }
        assert(distinct_labels(prev)) by {
            assert forall|j: int, k: int|
                0 <= j < k < prev.len() && (#[trigger] prev[j]) is Mapping && (#[trigger] prev[k]) is Mapping implies option_label(
                prev[j],
            ) != option_label(prev[k]) by {
                assert(prev[j] == items[j] && prev[k] == items[k]);
            }
        }
        lemma_option_labels_count(prev);
        assert(items[items.len() - 1] == last);
        if last is Mapping {
            assert(option_fault(items[items.len() - 1]) is None);
            let l = option_label(last)->Some_0;
            assert(!option_labels(prev).contains(l)) by {
                if option_labels(prev).contains(l) {
                    let j = choose|j: int|
                        0 <= j < prev.len() && (#[trigger] prev[j]) is Mapping && option_label(prev[j])
                            == Some(l);
                    assert(items[j] == prev[j]);
                }
            }
            lemma_remove_absent(option_labels(prev), l);
            assert forall|x: Seq<char>| #[trigger] option_labels(items).contains(x) implies exists|j: int|
                0 <= j < items.len() && (#[trigger] items[j]) is Mapping && option_label(items[j])
                    == Some(x) by {
                let ls = option_labels(items);
                let k = choose|k: int| 0 <= k < ls.len() && ls[k] == x;
                if k == ls.len() - 1 {
                    assert(option_label(items[items.len() - 1]) == Some(x));
                } else {
                    assert(option_labels(prev)[k] == x);
                    assert(option_labels(prev).contains(x));
                    let j = choose|j: int|
                        0 <= j < prev.len() && (#[trigger] prev[j]) is Mapping && option_label(prev[j])
                            == Some(x);
                    assert(items[j] == prev[j]);
                }
            }
        } else {
            assert forall|x: Seq<char>| #[trigger] option_labels(items).contains(x) implies exists|j: int|
                0 <= j < items.len() && (#[trigger] items[j]) is Mapping && option_label(items[j])
                    == Some(x) by {
                assert(option_labels(prev).contains(x));
                let j = choose|j: int|
                    0 <= j < prev.len() && (#[trigger] prev[j]) is Mapping && option_label(prev[j])
                        == Some(x);
                assert(items[j] == prev[j]);
            }
        }
    }
}

/// A menu built from a node skips the elements of its option list that are
/// not mappings: when no two mapping elements share a label, it has one
/// option per mapping element.
pub proof fn lemma_skipped_elements<B: SubBuilder>(b: &Builder<B>, v: Value, r: Result<Action, BuildError>)
    requires
        b.menu_outcome(v, r),
        r is Ok,
        distinct_labels(field_items(v, "options"@).unwrap()),
    ensures
        r matches Ok(Action::Menu(m)) && m.options().len() == mapping_count(
            field_items(v, "options"@).unwrap(),
        ),
{
    let items = field_items(v, "options"@).unwrap();
    assert(menu_fault(v) is None);
    assert(options_sound(items)) by {
        assert forall|j: int| 0 <= j < items.len() && (#[trigger] items[j]) is Mapping implies option_fault(
            items[j],
        ) is None by {
        }
    }
    lemma_option_labels_count(items);
}

} // verus!
