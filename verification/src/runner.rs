//! The byte state machine: bytes are accumulated into a bounded line
//! buffer; backspace erases, a carriage return submits the line to the
//! command processor, and a byte that does not fit is dropped with a
//! warning. Every call reports the text to display and what the caller
//! should do next.

use vstd::prelude::*;
use vstd::utf8::decode_utf8;
use vstd::utf8::valid_utf8;

use crate::menu::menu_at;
use crate::menu::Menu;
use crate::menu_manager::MenuManager;
use crate::processor::next_path;
use crate::processor::outcome_fits;
use crate::processor::prompt_text;
use crate::processor::step_of;
use crate::processor::step_text;
use crate::processor::InnerRunner;
use crate::processor::ProcessOutcome;
use crate::processor::ProcessResult;
use crate::token::tokenize;

verus! {

/// Relies on `core::str::from_utf8`: it accepts exactly the valid UTF-8
/// byte sequences, and the returned text reads the bytes as UTF-8.
#[verifier::external_body]
fn bytes_to_str(v: &[u8]) -> (r: Option<&str>)
    ensures
        r is Some <==> valid_utf8(v@),
        r matches Some(s) ==> s@ == decode_utf8(v@),
{
    core::str::from_utf8(v).ok()
}

/// What one input byte led to.
pub enum InputEvent<H> {
    /// More bytes are needed before a line is complete.
    Pending,
    /// The buffer was full: the byte was dropped, the line kept.
    Overflow,
    /// A carriage return completed a line that was not valid text; the
    /// line was discarded and nothing dispatched.
    InvalidUtf8,
    /// A carriage return completed a line; this is what processing it
    /// decided.
    Submitted(ProcessOutcome<H>),
}

/// The event one input byte produced, and the text to display for it.
pub struct InputResult<H> {
    pub event: InputEvent<H>,
    pub output: String,
}

/// This structure handles the menu. You feed it bytes as they are read
/// from the console and it reports menu actions when commands are typed in
/// (followed by Enter).
pub struct Runner<H> {
    buffer: Vec<u8>,
    capacity: usize,
    echo: bool,
    inner: InnerRunner<H>,
}

impl<H> Runner<H> {
    /// The bytes accumulated so far.
    pub closed spec fn buffer_view(&self) -> Seq<u8> {
        self.buffer@
    }

    /// The most bytes the line buffer holds.
    pub closed spec fn capacity_spec(&self) -> usize {
        self.capacity
    }

    /// Whether each accepted byte redraws the line (echo as you type);
    /// otherwise the line is echoed once, when it is submitted.
    pub closed spec fn echo_spec(&self) -> bool {
        self.echo
    }

    /// The navigator the runner drives.
    pub closed spec fn nav(&self) -> MenuManager<H> {
        self.inner.menu_mgr
    }

    pub open spec fn wf(&self) -> bool {
        &&& self.nav().wf()
        &&& self.buffer_view().len() <= self.capacity_spec()
    }
}

impl<H: Copy> Runner<H> {
    /// Create a new `Runner` around a top-level menu, with a line buffer
    /// of `capacity` bytes. Returns the runner, the root menu's entry
    /// handler for the caller to run, and the first prompt to display.
    pub fn new(menu: Menu<H>, capacity: usize, echo: bool) -> (r: (Runner<H>, Option<H>, String))
        ensures
            r.0.wf(),
            r.0.nav().root() == menu,
            r.0.nav().path_view() == Seq::<usize>::empty(),
            r.0.buffer_view() == Seq::<u8>::empty(),
            r.0.capacity_spec() == capacity,
            r.0.echo_spec() == echo,
            r.1 == menu.entry,
            r.2@ == prompt_text(r.0.nav(), true),
    {
        let entry = menu.entry;
        let inner = InnerRunner { menu_mgr: MenuManager::new(menu) };
        let runner = Runner { buffer: Vec::new(), capacity, echo, inner };
        let p = runner.inner.prompt(true);
        (runner, entry, p)
    }

    /// The menu the navigator currently looks at.
    pub fn current_menu(&self) -> (r: &Menu<H>)
        requires
            self.wf(),
        ensures
            *r == menu_at(self.nav().root(), self.nav().path_view()),
    {
        proof {
            assert(self.nav().path_view().take(self.nav().path_view().len() as int)
                =~= self.nav().path_view());
        }
        self.inner.menu_mgr.get_menu(None)
    }

    /// How many menu levels below the root the runner currently is.
    pub fn depth(&self) -> (r: usize)
        ensures
            r == self.nav().path_view().len(),
    {
        self.inner.menu_mgr.depth()
    }

    /// Renders the command prompt for the current position.
    pub fn prompt(&self, newline: bool) -> (r: String)
        requires
            self.wf(),
        ensures
            r@ == prompt_text(self.nav(), newline),
    {
        self.inner.prompt(newline)
    }

    /// Processes one completed line that arrived outside the byte state
    /// machine - from a caller-owned line editor. The line buffer is not
    /// involved.
    pub fn process_line(&mut self, command_line: &str) -> (r: ProcessResult<H>)
        requires
            old(self).wf(),
        ensures
            ({
                let toks = tokenize(command_line@);
                let menu = old(self).nav().current();
                let depth = old(self).nav().path_view().len() as int;
                let step = step_of(menu, depth, toks);
                &&& final(self).wf()
                &&& final(self).buffer_view() == old(self).buffer_view()
                &&& final(self).capacity_spec() == old(self).capacity_spec()
                &&& final(self).echo_spec() == old(self).echo_spec()
                &&& final(self).nav().root() == old(self).nav().root()
                &&& final(self).nav().path_view() == next_path(old(self).nav().path_view(), step)
                &&& outcome_fits(menu, toks, step, r.outcome)
                &&& r.output@ == "\n"@ + step_text(menu, depth, toks, step)
            }),
    {
        self.inner.process_command(command_line)
    }

    /// Add a byte to the menu runner's buffer. If this byte is a carriage
    /// return, the buffer is scanned and the appropriate action performed;
    /// the buffer is empty again afterwards, whatever the outcome.
    pub fn input_byte(&mut self, input: u8) -> (r: InputResult<H>)
        requires
            old(self).wf(),
        ensures
            final(self).wf(),
            final(self).capacity_spec() == old(self).capacity_spec(),
            final(self).echo_spec() == old(self).echo_spec(),
            final(self).nav().root() == old(self).nav().root(),
            (input == 0x0a) ==> (*final(self) == *old(self) && r.event is Pending && r.output@
                == Seq::<char>::empty()),
            (input == 0x0d) ==> ({
                &&& final(self).buffer_view() == Seq::<u8>::empty()
                &&& (if valid_utf8(old(self).buffer_view()) {
                    let line = decode_utf8(old(self).buffer_view());
                    let toks = tokenize(line);
                    let menu = old(self).nav().current();
                    let depth = old(self).nav().path_view().len() as int;
                    let step = step_of(menu, depth, toks);
                    &&& (r.event matches InputEvent::Submitted(oc) && outcome_fits(
                        menu,
                        toks,
                        step,
                        oc,
                    ))
                    &&& final(self).nav().path_view() == next_path(
                        old(self).nav().path_view(),
                        step,
                    )
                    &&& r.output@ == (if !old(self).echo_spec() {
                        "\r"@ + line
                    } else {
                        Seq::<char>::empty()
                    }) + "\n"@ + step_text(menu, depth, toks, step) + prompt_text(
                        final(self).nav(),
                        true,
                    )
                } else {
                    &&& r.event is InvalidUtf8
                    &&& final(self).nav() == old(self).nav()
                    &&& r.output@ == "Input was not valid UTF-8\n"@ + prompt_text(
                        final(self).nav(),
                        true,
                    )
                })
            }),
            (input == 0x08 || input == 0x7f) ==> ({
                &&& final(self).nav() == old(self).nav()
                &&& r.event is Pending
                &&& (if old(self).buffer_view().len() > 0 {
                    final(self).buffer_view() == old(self).buffer_view().drop_last() && r.output@
                        == "\u{0008} \u{0008}"@
                } else {
                    *final(self) == *old(self) && r.output@ == Seq::<char>::empty()
                })
            }),
            (input != 0x0a && input != 0x0d && input != 0x08 && input != 0x7f) ==> ({
                &&& final(self).nav() == old(self).nav()
                &&& (if old(self).buffer_view().len() < old(self).capacity_spec() {
                    &&& final(self).buffer_view() == old(self).buffer_view().push(input)
                    &&& r.event is Pending
                    &&& r.output@ == (if old(self).echo_spec() && valid_utf8(
                        final(self).buffer_view(),
                    ) {
                        "\r"@ + prompt_text(old(self).nav(), false) + decode_utf8(
                            final(self).buffer_view(),
                        )
                    } else {
                        Seq::<char>::empty()
                    })
                } else {
                    &&& final(self).buffer_view() == old(self).buffer_view()
                    &&& r.event is Overflow
                    &&& r.output@ == "Buffer overflow!\n"@
                })
            }),
    {
        let mut out = String::new();
        if input == 0x0a {
            return InputResult { event: InputEvent::Pending, output: out };
        }
        if input == 0x0d {
            let line_opt = bytes_to_str(self.buffer.as_slice());
            match line_opt {
                Some(line) => {
                    let line_owned: String = line.to_owned();
                    if !self.echo {
                        out.append("\r");
                        out.append(line_owned.as_str());
                    }
                    let res = self.inner.process_command(line_owned.as_str());
                    out.append(res.output.as_str());
                    self.buffer.clear();
                    let p = self.inner.prompt(true);
                    out.append(p.as_str());
                    proof {
                        assert(out@ =~= (if !old(self).echo_spec() {
                            "\r"@ + decode_utf8(old(self).buffer_view())
                        } else {
                            Seq::<char>::empty()
                        }) + res.output@ + p@);
                    }
                    InputResult { event: InputEvent::Submitted(res.outcome), output: out }
                },
                None => {
                    out.append("Input was not valid UTF-8\n");
                    self.buffer.clear();
                    let p = self.inner.prompt(true);
                    out.append(p.as_str());
                    proof {
                        assert(out@ =~= "Input was not valid UTF-8\n"@ + p@);
                    }
                    InputResult { event: InputEvent::InvalidUtf8, output: out }
                },
            }
        } else if input == 0x08 || input == 0x7f {
            if self.buffer.len() > 0 {
                self.buffer.pop();
                out.append("\u{0008} \u{0008}");
            }
            InputResult { event: InputEvent::Pending, output: out }
        } else if self.buffer.len() < self.capacity {
            self.buffer.push(input);
            if self.echo {
                let line_opt = bytes_to_str(self.buffer.as_slice());
                match line_opt {
                    Some(line) => {
                        let line_owned: String = line.to_owned();
                        out.append("\r");
                        let p = self.inner.prompt(false);
                        out.append(p.as_str());
                        out.append(line_owned.as_str());
                        proof {
                            assert(out@ =~= "\r"@ + p@ + line_owned@);
                        }
                    },
                    None => {},
                }
            }
            InputResult { event: InputEvent::Pending, output: out }
        } else {
            out.append("Buffer overflow!\n");
            InputResult { event: InputEvent::Overflow, output: out }
        }
    }
}

} // verus!
