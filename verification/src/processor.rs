//! The command processor: one completed line is tokenized, resolved against
//! the current menu, and turned into an outcome for the caller to act on,
//! together with the text to display.

use vstd::prelude::*;

use crate::help::long_help_text;
use crate::help::print_long_help;
use crate::help::print_short_help;
use crate::help::short_help_text;
use crate::menu::find_item;
use crate::menu::lemma_find_item_is;
use crate::menu::lemma_find_item_props;
use crate::menu::menu_at;
use crate::menu::submenu;
use crate::menu::Item;
use crate::menu::ItemType;
use crate::menu_manager::MenuManager;
use crate::menu_manager::MAX_DEPTH;
use crate::params::lemma_first_bad_flag_props;
use crate::params::spec_validate;
use crate::params::validate_arguments;
use crate::params::ArgCheck;
use crate::token::str_eq;
use crate::token::tokenize;
use crate::token::tokenize_line;

verus! {

/// What processing one completed line decided; for the variants that name
/// a handler, the caller is expected to invoke it.
pub enum ProcessOutcome<H> {
    /// The line held no token.
    EmptyInput,
    /// `help` with no topic: the listing of the current menu was rendered.
    HelpList,
    /// `help <topic>` named this item of the current menu.
    HelpItem { index: usize },
    /// `help <topic>` named no item of the current menu.
    HelpUnknown,
    /// `exit` left a sub-menu; run this exit handler if there is one.
    ExitedMenu { exit: Option<H> },
    /// The command named a sub-menu and it was entered; run its entry
    /// handler if there is one.
    EnteredMenu { index: usize, entry: Option<H> },
    /// The command named a sub-menu, but the navigator is at its depth
    /// limit; nothing changed.
    TooDeep,
    /// The first token matched no command of the current menu.
    CommandNotFound,
    /// A supplied `--` token matched no declared flag; the handler is not
    /// invoked.
    UnknownArgument,
    /// Fewer positional arguments than mandatory parameters.
    InsufficientArguments,
    /// More positional arguments than positional parameters.
    TooManyArguments,
    /// The arguments fit the schema: run this handler with them.
    Invoke { index: usize, function: H, args: Vec<String> },
}

/// The branch of the line grammar that applies to a tokenized line,
/// resolved against a menu and the current depth; no state is touched yet.
pub enum Step {
    Empty,
    HelpList,
    HelpItem { index: usize },
    HelpUnknown,
    ExitLevel,
    Enter { index: usize },
    TooDeep,
    NotFound,
    BadFlag { token_index: usize },
    Insufficient,
    TooMany,
    Call { index: usize },
}

/// Resolves a tokenized line: `help` and `exit` come first, then the first
/// item whose command word matches; a `Menu` item descends (depth
/// permitting) and a `Callback` item has its arguments validated.
pub open spec fn step_of<H>(menu: crate::menu::Menu<H>, depth: int, toks: Seq<Seq<char>>) -> Step {
    if toks.len() == 0 {
        Step::Empty
    } else {
        let cmd = toks[0];
        if cmd == "help"@ {
            if toks.len() >= 2 {
                match find_item(menu.items@, toks[1]) {
                    Some(i) => Step::HelpItem { index: i as usize },
                    None => Step::HelpUnknown,
                }
            } else {
                Step::HelpList
            }
        } else if cmd == "exit"@ && depth != 0 {
            Step::ExitLevel
        } else {
            match find_item(menu.items@, cmd) {
                Some(i) => match menu.items@[i].item_type {
                    ItemType::Menu(_) => if depth < MAX_DEPTH {
                        Step::Enter { index: i as usize }
                    } else {
                        Step::TooDeep
                    },
                    ItemType::Callback { parameters, .. } => match spec_validate(
                        parameters@,
                        toks.drop_first(),
                    ) {
                        ArgCheck::UnknownFlag { token_index } => Step::BadFlag { token_index },
                        ArgCheck::Insufficient => Step::Insufficient,
                        ArgCheck::TooMany => Step::TooMany,
                        ArgCheck::Accepted => Step::Call { index: i as usize },
                    },
                },
                None => Step::NotFound,
            }
        }
    }
}

/// How the recorded descent changes: `exit` pops one level, entering a
/// sub-menu pushes its index, everything else leaves the path alone.
pub open spec fn next_path(path: Seq<usize>, step: Step) -> Seq<usize> {
    match step {
        Step::ExitLevel => path.drop_last(),
        Step::Enter { index } => path.push(index),
        _ => path,
    }
}

/// The outcome that reports a step faithfully, including the handler and
/// arguments it hands to the caller.
pub open spec fn outcome_fits<H>(
    menu: crate::menu::Menu<H>,
    toks: Seq<Seq<char>>,
    step: Step,
    r: ProcessOutcome<H>,
) -> bool {
    match step {
        Step::Empty => r is EmptyInput,
        Step::HelpList => r is HelpList,
        Step::HelpItem { index } => r matches ProcessOutcome::HelpItem { index: i } && i == index,
        Step::HelpUnknown => r is HelpUnknown,
        Step::ExitLevel => r matches ProcessOutcome::ExitedMenu { exit } && exit == menu.exit,
        Step::Enter { index } => r matches ProcessOutcome::EnteredMenu { index: i, entry } && i
            == index && entry == submenu(menu, index as int).entry,
        Step::TooDeep => r is TooDeep,
        Step::NotFound => r is CommandNotFound,
        Step::BadFlag { .. } => r is UnknownArgument,
        Step::Insufficient => r is InsufficientArguments,
        Step::TooMany => r is TooManyArguments,
        Step::Call { index } => r matches ProcessOutcome::Invoke { index: i, function, args } && i
            == index && (menu.items@[index as int].item_type matches ItemType::Callback {
            function: f,
            ..
        } && function == f) && args.deep_view() == toks.drop_first(),
    }
}

/// The one-line summaries of the items, in declaration order.
pub open spec fn items_help<H>(items: Seq<Item<H>>) -> Seq<char>
    decreases items.len(),
{
    if items.len() == 0 {
        Seq::empty()
    } else {
        items_help(items.drop_last()) + short_help_text(items.last())
    }
}

/// What `help` with no topic renders: every item of the current menu, a
/// synthetic `exit` entry below the root, and the synthetic `help` entry.
pub open spec fn help_list_text<H>(menu: crate::menu::Menu<H>, depth: int) -> Seq<char> {
    "AVAILABLE ITEMS:\n"@ + items_help(menu.items@) + (if depth != 0 {
        "  exit\n"@
    } else {
        Seq::<char>::empty()
    }) + "  help [ <command> ]\n"@
}

/// The text a step reports, after the newline that ends the echoed line.
pub open spec fn step_text<H>(
    menu: crate::menu::Menu<H>,
    depth: int,
    toks: Seq<Seq<char>>,
    step: Step,
) -> Seq<char> {
    match step {
        Step::Empty => "Input was empty?\n"@,
        Step::HelpList => help_list_text(menu, depth),
        Step::HelpItem { index } => long_help_text(menu.items@[index as int]),
        Step::HelpUnknown => "I can't help with \""@ + toks[1] + "\"\n"@,
        Step::ExitLevel => Seq::empty(),
        Step::Enter { .. } => Seq::empty(),
        Step::TooDeep => "Can't enter menu - structure too deep\n"@,
        Step::NotFound => "Command \""@ + toks[0] + "\" not found. Try 'help'.\n"@,
        Step::BadFlag { token_index } => "Error: Did not understand \""@ + toks.drop_first()[
            token_index as int
        ] + "\"\n"@,
        Step::Insufficient => "Error: Insufficient arguments given\n"@,
        Step::TooMany => "Error: Too many arguments given\n"@,
        Step::Call { .. } => Seq::empty(),
    }
}

/// What one call of `process_command` returns: the decision, and the text
/// to display.
pub struct ProcessResult<H> {
    pub outcome: ProcessOutcome<H>,
    pub output: String,
}

/// Finds the first item whose command word equals `cmd`.
fn find_item_exec<H>(items: &Vec<Item<H>>, cmd: &str) -> (r: Option<usize>)
    ensures
        match find_item(items@, cmd@) {
            Some(i) => r matches Some(j) && j == i,
            None => r is None,
        },
{
    let n = items.len();
    let mut idx: usize = 0;
    while idx < n
        invariant
            idx <= n,
            n == items@.len(),
            forall|k: int| 0 <= k < idx ==> items@[k].command@ != cmd@,
        decreases n - idx,
    {
        if str_eq(items[idx].command.as_str(), cmd) {
            proof {
                lemma_find_item_is(items@, cmd@, idx as int);
            }
            return Some(idx);
        }
        idx = idx + 1;
    }
    proof {
        lemma_find_item_is(items@, cmd@, n as int);
    }
    None
}

/// The tokens after the command word, cloned into a list of their own.
fn tail_of(toks: &Vec<String>) -> (r: Vec<String>)
    requires
        toks@.len() >= 1,
    ensures
        r.deep_view() == toks.deep_view().drop_first(),
{
    let ghost dv = toks.deep_view();
    let mut r: Vec<String> = Vec::new();
    let mut i: usize = 1;
    while i < toks.len()
        invariant
            1 <= i <= toks@.len(),
            dv == toks.deep_view(),
            r.deep_view() =~= dv.subrange(1, i as int),
        decreases toks@.len() - i,
    {
        let ghost before = r.deep_view();
        r.push(toks[i].clone());
        proof {
            assert(r.deep_view() =~= before.push(dv[i as int]));
            assert(r.deep_view() =~= dv.subrange(1, i as int + 1));
        }
        i = i + 1;
    }
    proof {
        assert(dv.subrange(1, dv.len() as int) =~= dv.drop_first());
    }
    r
}

/// Owns the navigator while a line is processed.
pub struct InnerRunner<H> {
    pub menu_mgr: MenuManager<H>,
}

/// Where the prompt iterator stands: the optional leading newline, the
/// menu labels along the recorded descent, the prompt arrow, done.
#[derive(Clone)]
pub enum PromptIterState {
    Newline,
    Menu(usize),
    Arrow,
    Done,
}

/// Yields the prompt one fragment at a time.
pub struct PromptIter<'a, H> {
    menu_mgr: &'a MenuManager<H>,
    state: PromptIterState,
}

/// The labels of the menus passed through, from descent level `i` on: the
/// label of the menu reached after `i` steps, then the deeper ones. The
/// current menu's own label is not among them.
pub open spec fn labels_from<H>(mgr: MenuManager<H>, i: int) -> Seq<char>
    decreases mgr.path_view().len() - i,
{
    if i < 0 || i >= mgr.path_view().len() {
        Seq::empty()
    } else {
        menu_at(mgr.root(), mgr.path_view().take(i)).label@ + labels_from(mgr, i + 1)
    }
}

/// The full prompt: an optional leading newline, the labels along the
/// descent, and the arrow.
pub open spec fn prompt_text<H>(mgr: MenuManager<H>, newline: bool) -> Seq<char> {
    (if newline {
        "\n"@
    } else {
        Seq::<char>::empty()
    }) + labels_from(mgr, 0) + "> "@
}

/// What the iterator still has to yield.
pub open spec fn prompt_remaining<H>(mgr: MenuManager<H>, state: PromptIterState) -> Seq<char> {
    match state {
        PromptIterState::Newline => "\n"@ + labels_from(mgr, 0) + "> "@,
        PromptIterState::Menu(i) => labels_from(mgr, i as int) + "> "@,
        PromptIterState::Arrow => "> "@,
        PromptIterState::Done => Seq::empty(),
    }
}

/// Bounds the number of steps the iterator can still take.
pub open spec fn prompt_measure(state: PromptIterState, len: int) -> int {
    match state {
        PromptIterState::Newline => len + 3,
        PromptIterState::Menu(i) => if i <= len {
            len - i + 2
        } else {
            2
        },
        PromptIterState::Arrow => 1,
        PromptIterState::Done => 0,
    }
}

impl<'a, H> PromptIter<'a, H> {
    /// A fresh prompt iterator; with `newline` it yields a line break
    /// before the labels.
    pub fn new(menu_mgr: &'a MenuManager<H>, newline: bool) -> (r: Self)
        ensures
            r.menu_mgr_view() == menu_mgr,
            prompt_remaining(*menu_mgr, r.state_view()) == prompt_text(*menu_mgr, newline),
            prompt_measure(r.state_view(), menu_mgr.path_view().len() as int) <= menu_mgr.path_view().len() + 3,
    {
        let state = if newline {
            PromptIterState::Newline
        } else {
            PromptIterState::Menu(0)
        };
        proof {
            if !newline {
                assert(Seq::<char>::empty() + labels_from(*menu_mgr, 0) + "> "@ =~= labels_from(
                    *menu_mgr,
                    0,
                ) + "> "@);
            }
        }
        Self { menu_mgr, state }
    }

    pub closed spec fn menu_mgr_view(&self) -> &'a MenuManager<H> {
        self.menu_mgr
    }

    pub closed spec fn state_view(&self) -> PromptIterState {
        self.state
    }

    /// The next prompt fragment, or nothing once the arrow is out.
    pub fn next(&mut self) -> (r: Option<String>)
        requires
            old(self).menu_mgr_view().wf(),
        ensures
            final(self).menu_mgr_view() == old(self).menu_mgr_view(),
            match r {
                Some(s) => (s@ + prompt_remaining(
                    *final(self).menu_mgr_view(),
                    final(self).state_view(),
                ) == prompt_remaining(*old(self).menu_mgr_view(), old(self).state_view()))
                    && prompt_measure(
                    final(self).state_view(),
                    final(self).menu_mgr_view().path_view().len() as int,
                ) < prompt_measure(
                    old(self).state_view(),
                    old(self).menu_mgr_view().path_view().len() as int,
                ),
                None => prompt_remaining(*old(self).menu_mgr_view(), old(self).state_view())
                    == Seq::<char>::empty(),
            },
    {
        let ghost len = self.menu_mgr.path_view().len() as int;
        loop
            invariant
                self.menu_mgr == old(self).menu_mgr,
                self.menu_mgr.wf(),
                len == self.menu_mgr.path_view().len() as int,
                prompt_remaining(*self.menu_mgr, self.state) == prompt_remaining(
                    *old(self).menu_mgr_view(),
                    old(self).state_view(),
                ),
                prompt_measure(self.state, len) <= prompt_measure(
                    old(self).state_view(),
                    len,
                ),
            decreases prompt_measure(self.state, len),
        {
            match self.state {
                PromptIterState::Newline => {
                    self.state = PromptIterState::Menu(0);
                    let s: String = "\n".to_owned();
                    return Some(s);
                },
                PromptIterState::Menu(i) => {
                    if i >= self.menu_mgr.depth() {
                        self.state = PromptIterState::Arrow;
                        proof {
                            assert(labels_from(*self.menu_mgr, i as int) =~= Seq::<char>::empty());
                            assert(labels_from(*self.menu_mgr, i as int) + "> "@ =~= "> "@);
                        }
                    } else {
                        let menu = self.menu_mgr.get_menu(Some(i));
                        self.state = PromptIterState::Menu(i + 1);
                        return Some(menu.label.clone());
                    }
                },
                PromptIterState::Arrow => {
                    self.state = PromptIterState::Done;
                    let s: String = "> ".to_owned();
                    return Some(s);
                },
                PromptIterState::Done => {
                    return None;
                },
            }
        }
    }
}

impl<H> InnerRunner<H> {
    /// Renders the command prompt, including the labels of the menus
    /// descended through.
    pub fn prompt(&self, newline: bool) -> (r: String)
        requires
            self.menu_mgr.wf(),
        ensures
            r@ == prompt_text(self.menu_mgr, newline),
    {
        let mut iter = PromptIter::new(&self.menu_mgr, newline);
        let mut out = String::new();
        loop
            invariant
                iter.menu_mgr_view() == &self.menu_mgr,
                self.menu_mgr.wf(),
                out@ + prompt_remaining(self.menu_mgr, iter.state_view()) == prompt_text(
                    self.menu_mgr,
                    newline,
                ),
            decreases prompt_measure(iter.state_view(), self.menu_mgr.path_view().len() as int),
        {
            match iter.next() {
                Some(part) => {
                    out.append(part.as_str());
                    proof {
                        assert(out@ + prompt_remaining(self.menu_mgr, iter.state_view())
                            =~= prompt_text(self.menu_mgr, newline));
                    }
                },
                None => {
                    proof {
                        assert(out@ =~= prompt_text(self.menu_mgr, newline));
                    }
                    return out;
                },
            }
        }
    }
}

impl<H: Copy> InnerRunner<H> {
    /// Scans one completed line and does the right thing based on its
    /// contents: menu navigation, help rendering, or argument validation
    /// ahead of a handler invocation, which is left to the caller.
    pub fn process_command(&mut self, command_line: &str) -> (r: ProcessResult<H>)
        requires
            old(self).menu_mgr.wf(),
        ensures
            ({
                let toks = tokenize(command_line@);
                let menu = old(self).menu_mgr.current();
                let depth = old(self).menu_mgr.path_view().len() as int;
                let step = step_of(menu, depth, toks);
                &&& final(self).menu_mgr.wf()
                &&& final(self).menu_mgr.root() == old(self).menu_mgr.root()
                &&& final(self).menu_mgr.path_view() == next_path(
                    old(self).menu_mgr.path_view(),
                    step,
                )
                &&& outcome_fits(menu, toks, step, r.outcome)
                &&& r.output@ == "\n"@ + step_text(menu, depth, toks, step)
            }),
    {
        let ghost menu0 = self.menu_mgr.current();
        let ghost path0 = self.menu_mgr.path_view();
        let depth = self.menu_mgr.depth();
        let mut out = String::new();
        out.append("\n");
        let toks = tokenize_line(command_line);
        let ghost dv = toks.deep_view();
        let ghost step = step_of(menu0, path0.len() as int, dv);
        if toks.len() == 0 {
            out.append("Input was empty?\n");
            proof {
                assert(out@ =~= "\n"@ + step_text(menu0, path0.len() as int, dv, step));
            }
            return ProcessResult { outcome: ProcessOutcome::EmptyInput, output: out };
        }
        proof {
            assert(dv[0] == toks@[0]@);
        }
        let is_help = str_eq(toks[0].as_str(), "help");
        let is_exit = str_eq(toks[0].as_str(), "exit");
        if is_help {
            let menu = self.menu_mgr.get_menu(None);
            proof {
                assert(path0.take(path0.len() as int) =~= path0);
                assert(*menu == menu0);
            }
            if toks.len() >= 2 {
                proof {
                    assert(dv[1] == toks@[1]@);
                }
                match find_item_exec(&menu.items, toks[1].as_str()) {
                    Some(i) => {
                        proof {
                            lemma_find_item_props(menu.items@, dv[1]);
                        }
                        let text = print_long_help(&menu.items[i]);
                        out.append(text.as_str());
                        proof {
                            assert(out@ =~= "\n"@ + step_text(
                                menu0,
                                path0.len() as int,
                                dv,
                                step,
                            ));
                        }
                        return ProcessResult {
                            outcome: ProcessOutcome::HelpItem { index: i },
                            output: out,
                        };
                    },
                    None => {
                        out.append("I can't help with \"");
                        out.append(toks[1].as_str());
                        out.append("\"\n");
                        proof {
                            assert(out@ =~= "\n"@ + step_text(
                                menu0,
                                path0.len() as int,
                                dv,
                                step,
                            ));
                        }
                        return ProcessResult {
                            outcome: ProcessOutcome::HelpUnknown,
                            output: out,
                        };
                    },
                }
            } else {
                out.append("AVAILABLE ITEMS:\n");
                let n = menu.items.len();
                let mut idx: usize = 0;
                proof {
                    assert(menu.items@.take(0) =~= Seq::<Item<H>>::empty());
                    assert(out@ =~= "\n"@ + "AVAILABLE ITEMS:\n"@ + items_help(
                        menu.items@.take(0),
                    ));
                }
                while idx < n
                    invariant
                        idx <= n,
                        n == menu.items@.len(),
                        out@ == "\n"@ + "AVAILABLE ITEMS:\n"@ + items_help(
                            menu.items@.take(idx as int),
                        ),
                    decreases n - idx,
                {
                    let line = print_short_help(&menu.items[idx]);
                    out.append(line.as_str());
                    proof {
                        assert(menu.items@.take(idx as int + 1).drop_last() =~= menu.items@.take(
                            idx as int,
                        ));
                        assert(menu.items@.take(idx as int + 1).last() == menu.items@[idx as int]);
                        assert(out@ =~= "\n"@ + "AVAILABLE ITEMS:\n"@ + items_help(
                            menu.items@.take(idx as int + 1),
                        ));
                    }
                    idx = idx + 1;
                }
                proof {
                    assert(menu.items@.take(n as int) =~= menu.items@);
                }
                if depth != 0 {
                    out.append("  exit\n");
                }
                out.append("  help [ <command> ]\n");
                proof {
                    assert(out@ =~= "\n"@ + step_text(menu0, path0.len() as int, dv, step));
                }
                return ProcessResult { outcome: ProcessOutcome::HelpList, output: out };
            }
        } else if is_exit && depth != 0 {
            let menu = self.menu_mgr.get_menu(None);
            proof {
                assert(path0.take(path0.len() as int) =~= path0);
                assert(*menu == menu0);
            }
            let exit = menu.exit;
            self.menu_mgr.pop_menu();
            proof {
                assert(out@ =~= "\n"@ + step_text(menu0, path0.len() as int, dv, step));
            }
            return ProcessResult { outcome: ProcessOutcome::ExitedMenu { exit }, output: out };
        } else {
            let menu = self.menu_mgr.get_menu(None);
            proof {
                assert(path0.take(path0.len() as int) =~= path0);
                assert(*menu == menu0);
            }
            match find_item_exec(&menu.items, toks[0].as_str()) {
                None => {
                    out.append("Command \"");
                    out.append(toks[0].as_str());
                    out.append("\" not found. Try 'help'.\n");
                    proof {
                        assert(out@ =~= "\n"@ + step_text(menu0, path0.len() as int, dv, step));
                    }
                    return ProcessResult {
                        outcome: ProcessOutcome::CommandNotFound,
                        output: out,
                    };
                },
                Some(i) => {
                    proof {
                        lemma_find_item_props(menu.items@, dv[0]);
                    }
                    match &menu.items[i].item_type {
                        ItemType::Callback { function, parameters } => {
                            let f = *function;
                            let args = tail_of(&toks);
                            let check = validate_arguments(parameters, &args);
                            match check {
                                ArgCheck::UnknownFlag { token_index } => {
                                    proof {
                                        lemma_first_bad_flag_props(
                                            parameters@,
                                            dv.drop_first(),
                                        );
                                        assert(args.deep_view()[token_index as int] == args@[
                                            token_index as int
                                        ]@);
                                    }
                                    out.append("Error: Did not understand \"");
                                    out.append(args[token_index].as_str());
                                    out.append("\"\n");
                                    proof {
                                        assert(out@ =~= "\n"@ + step_text(
                                            menu0,
                                            path0.len() as int,
                                            dv,
                                            step,
                                        ));
                                    }
                                    ProcessResult {
                                        outcome: ProcessOutcome::UnknownArgument,
                                        output: out,
                                    }
                                },
                                ArgCheck::Insufficient => {
                                    out.append("Error: Insufficient arguments given\n");
                                    proof {
                                        assert(out@ =~= "\n"@ + step_text(
                                            menu0,
                                            path0.len() as int,
                                            dv,
                                            step,
                                        ));
                                    }
                                    ProcessResult {
                                        outcome: ProcessOutcome::InsufficientArguments,
                                        output: out,
                                    }
                                },
                                ArgCheck::TooMany => {
                                    out.append("Error: Too many arguments given\n");
                                    proof {
                                        assert(out@ =~= "\n"@ + step_text(
                                            menu0,
                                            path0.len() as int,
                                            dv,
                                            step,
                                        ));
                                    }
                                    ProcessResult {
                                        outcome: ProcessOutcome::TooManyArguments,
                                        output: out,
                                    }
                                },
                                ArgCheck::Accepted => {
                                    proof {
                                        assert(out@ =~= "\n"@ + step_text(
                                            menu0,
                                            path0.len() as int,
                                            dv,
                                            step,
                                        ));
                                    }
                                    ProcessResult {
                                        outcome: ProcessOutcome::Invoke {
                                            index: i,
                                            function: f,
                                            args,
                                        },
                                        output: out,
                                    }
                                },
                            }
                        },
                        ItemType::Menu(sub) => {
                            let entry = sub.entry;
                            let pushed = self.menu_mgr.push_menu(i);
                            if pushed {
                                proof {
                                    assert(out@ =~= "\n"@ + step_text(
                                        menu0,
                                        path0.len() as int,
                                        dv,
                                        step,
                                    ));
                                }
                                ProcessResult {
                                    outcome: ProcessOutcome::EnteredMenu { index: i, entry },
                                    output: out,
                                }
                            } else {
                                out.append("Can't enter menu - structure too deep\n");
                                proof {
                                    assert(out@ =~= "\n"@ + step_text(
                                        menu0,
                                        path0.len() as int,
                                        dv,
                                        step,
                                    ));
                                }
                                ProcessResult { outcome: ProcessOutcome::TooDeep, output: out }
                            }
                        },
                    }
                },
            }
        }
    }
}

} // verus!
