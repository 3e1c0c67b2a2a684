//! Rendering of help text: the one-line summary of an item and the long
//! form with its parameter list.

use vstd::prelude::*;

use crate::menu::Item;
use crate::menu::ItemType;
use crate::menu::Parameter;

verus! {

/// The usage fragment a parameter contributes to the one-line summary:
/// positional parameters are shown, named ones are summarised later.
pub open spec fn short_piece(p: Parameter) -> Seq<char> {
    match p {
        Parameter::Mandatory { parameter_name, .. } => " <"@ + parameter_name@ + ">"@,
        Parameter::Optional { parameter_name, .. } => " [ <"@ + parameter_name@ + "> ]"@,
        Parameter::Named { .. } => Seq::empty(),
        Parameter::NamedValue { .. } => Seq::empty(),
    }
}

/// The positional usage fragments of the schema, in declaration order.
pub open spec fn short_usage(params: Seq<Parameter>) -> Seq<char>
    decreases params.len(),
{
    if params.len() == 0 {
        Seq::empty()
    } else {
        short_usage(params.drop_last()) + short_piece(params.last())
    }
}

/// Whether any parameter among the first `n` is a named one.
pub open spec fn has_options_upto(params: Seq<Parameter>, n: int) -> bool {
    exists|i: int| 0 <= i < n && (params[i] is Named || params[i] is NamedValue)
}

/// Whether the schema declares any named parameter.
pub open spec fn has_options(params: Seq<Parameter>) -> bool {
    has_options_upto(params, params.len() as int)
}

/// The one-line summary of an item: its command word, the positional
/// usage, and an `[OPTIONS...]` marker when named parameters exist.
pub open spec fn short_help_text<H>(item: Item<H>) -> Seq<char> {
    match item.item_type {
        ItemType::Callback { parameters, .. } => "  "@ + item.command@ + short_usage(parameters@)
            + (if has_options(parameters@) {
            " [OPTIONS...]"@
        } else {
            Seq::empty()
        }) + "\n"@,
        ItemType::Menu(_) => "  "@ + item.command@ + "\n"@,
    }
}

/// The usage fragment a parameter contributes to the long summary; here
/// the named parameters are shown too.
pub open spec fn long_piece(p: Parameter) -> Seq<char> {
    match p {
        Parameter::Mandatory { parameter_name, .. } => " <"@ + parameter_name@ + ">"@,
        Parameter::Optional { parameter_name, .. } => " [ <"@ + parameter_name@ + "> ]"@,
        Parameter::Named { parameter_name, .. } => " [ --"@ + parameter_name@ + " ]"@,
        Parameter::NamedValue { parameter_name, argument_name, .. } => " [ --"@ + parameter_name@
            + "="@ + argument_name@ + " ]"@,
    }
}

pub open spec fn long_usage(params: Seq<Parameter>) -> Seq<char>
    decreases params.len(),
{
    if params.len() == 0 {
        Seq::empty()
    } else {
        long_usage(params.drop_last()) + long_piece(params.last())
    }
}

/// A parameter's help text, or the stock line for an undocumented one.
pub open spec fn help_or_default(help: Option<String>) -> Seq<char> {
    match help {
        Some(h) => h@,
        None => "Undocumented option"@,
    }
}

/// The block the long help devotes to one parameter.
pub open spec fn param_detail(p: Parameter) -> Seq<char> {
    match p {
        Parameter::Mandatory { parameter_name, help } => "  <"@ + parameter_name@ + ">\n    "@
            + help_or_default(help) + "\n\n"@,
        Parameter::Optional { parameter_name, help } => "  <"@ + parameter_name@ + ">\n    "@
            + help_or_default(help) + "\n\n"@,
        Parameter::Named { parameter_name, help } => "  --"@ + parameter_name@ + "\n    "@
            + help_or_default(help) + "\n\n"@,
        Parameter::NamedValue { parameter_name, argument_name, help } => "  --"@ + parameter_name@
            + "="@ + argument_name@ + "\n    "@ + help_or_default(help) + "\n\n"@,
    }
}

pub open spec fn param_details(params: Seq<Parameter>) -> Seq<char>
    decreases params.len(),
{
    if params.len() == 0 {
        Seq::empty()
    } else {
        param_details(params.drop_last()) + param_detail(params.last())
    }
}

/// The long help of an item: summary line, parameter blocks, and the
/// item's own description if it has one.
pub open spec fn long_help_text<H>(item: Item<H>) -> Seq<char> {
    "SUMMARY:\n  "@ + item.command@ + (match item.item_type {
        ItemType::Callback { parameters, .. } => if parameters@.len() == 0 {
            Seq::<char>::empty()
        } else {
            long_usage(parameters@) + "\n\nPARAMETERS:\n"@ + param_details(parameters@)
        },
        ItemType::Menu(_) => Seq::<char>::empty(),
    }) + (match item.help {
        Some(h) => "\n\nDESCRIPTION:\n"@ + h@ + "\n"@,
        None => Seq::<char>::empty(),
    })
}

/// Renders the one-line summary of an item, as the `help` listing shows it.
pub fn print_short_help<H>(item: &Item<H>) -> (r: String)
    ensures
        r@ == short_help_text(*item),
{
    let mut out = String::new();
    out.append("  ");
    out.append(item.command.as_str());
    match &item.item_type {
        ItemType::Callback { parameters, .. } => {
            let ghost pseq = parameters@;
            let n = parameters.len();
            let mut has_opts = false;
            let mut idx: usize = 0;
            proof {
                assert(pseq.take(0) =~= Seq::<Parameter>::empty());
                assert(out@ =~= "  "@ + item.command@ + short_usage(pseq.take(0)));
            }
            while idx < n
                invariant
                    idx <= n,
                    n == pseq.len(),
                    pseq == parameters@,
                    has_opts == has_options_upto(pseq, idx as int),
                    out@ == "  "@ + item.command@ + short_usage(pseq.take(idx as int)),
                decreases n - idx,
            {
                proof {
                    assert(pseq.take(idx as int + 1).drop_last() =~= pseq.take(idx as int));
                    assert(pseq.take(idx as int + 1).last() == pseq[idx as int]);
                }
                match &parameters[idx] {
                    Parameter::Mandatory { parameter_name, .. } => {
                        out.append(" <");
                        out.append(parameter_name.as_str());
                        out.append(">");
                        proof {
                            assert(out@ =~= "  "@ + item.command@ + short_usage(
                                pseq.take(idx as int + 1),
                            ));
                            assert(!(pseq[idx as int] is Named || pseq[idx as int] is NamedValue));
                        }
                    },
                    Parameter::Optional { parameter_name, .. } => {
                        out.append(" [ <");
                        out.append(parameter_name.as_str());
                        out.append("> ]");
                        proof {
                            assert(out@ =~= "  "@ + item.command@ + short_usage(
                                pseq.take(idx as int + 1),
                            ));
                            assert(!(pseq[idx as int] is Named || pseq[idx as int] is NamedValue));
                        }
                    },
                    Parameter::Named { .. } => {
                        has_opts = true;
                        proof {
                            assert(out@ =~= "  "@ + item.command@ + short_usage(
                                pseq.take(idx as int + 1),
                            ));
                        }
                    },
                    Parameter::NamedValue { .. } => {
                        has_opts = true;
                        proof {
                            assert(out@ =~= "  "@ + item.command@ + short_usage(
                                pseq.take(idx as int + 1),
                            ));
                        }
                    },
                }
                idx = idx + 1;
            }
            proof {
                assert(pseq.take(n as int) =~= pseq);
            }
            if has_opts {
                out.append(" [OPTIONS...]");
            }
            out.append("\n");
            proof {
                assert(out@ =~= short_help_text(*item));
            }
        },
        ItemType::Menu(_) => {
            out.append("\n");
            proof {
                assert(out@ =~= short_help_text(*item));
            }
        },
    }
    out
}

/// Renders the long help of an item: summary, parameter list with each
/// parameter's help text, and the item's description.
pub fn print_long_help<H>(item: &Item<H>) -> (r: String)
    ensures
        r@ == long_help_text(*item),
{
    let mut out = String::new();
    out.append("SUMMARY:\n  ");
    out.append(item.command.as_str());
    match &item.item_type {
        ItemType::Callback { parameters, .. } => {
            if parameters.len() > 0 {
                let ghost pseq = parameters@;
                let n = parameters.len();
                let mut idx: usize = 0;
                proof {
                    assert(pseq.take(0) =~= Seq::<Parameter>::empty());
                    assert(out@ =~= "SUMMARY:\n  "@ + item.command@ + long_usage(pseq.take(0)));
                }
                while idx < n
                    invariant
                        idx <= n,
                        n == pseq.len(),
                        pseq == parameters@,
                        out@ == "SUMMARY:\n  "@ + item.command@ + long_usage(pseq.take(idx as int)),
                    decreases n - idx,
                {
                    proof {
                        assert(pseq.take(idx as int + 1).drop_last() =~= pseq.take(idx as int));
                        assert(pseq.take(idx as int + 1).last() == pseq[idx as int]);
                    }
                    match &parameters[idx] {
                        Parameter::Mandatory { parameter_name, .. } => {
                            out.append(" <");
                            out.append(parameter_name.as_str());
                            out.append(">");
                        },
                        Parameter::Optional { parameter_name, .. } => {
                            out.append(" [ <");
                            out.append(parameter_name.as_str());
                            out.append("> ]");
                        },
                        Parameter::Named { parameter_name, .. } => {
                            out.append(" [ --");
                            out.append(parameter_name.as_str());
                            out.append(" ]");
                        },
                        Parameter::NamedValue { parameter_name, argument_name, .. } => {
                            out.append(" [ --");
                            out.append(parameter_name.as_str());
                            out.append("=");
                            out.append(argument_name.as_str());
                            out.append(" ]");
                        },
                    }
                    proof {
                        assert(out@ =~= "SUMMARY:\n  "@ + item.command@ + long_usage(
                            pseq.take(idx as int + 1),
                        ));
                    }
                    idx = idx + 1;
                }
                out.append("\n\nPARAMETERS:\n");
                let ghost header = "SUMMARY:\n  "@ + item.command@ + long_usage(pseq)
                    + "\n\nPARAMETERS:\n"@;
                proof {
                    assert(pseq.take(n as int) =~= pseq);
                    assert(out@ =~= header + param_details(pseq.take(0)));
                    assert(pseq.take(0) =~= Seq::<Parameter>::empty());
                }
                idx = 0;
                while idx < n
                    invariant
                        idx <= n,
                        n == pseq.len(),
                        pseq == parameters@,
                        header == "SUMMARY:\n  "@ + item.command@ + long_usage(pseq)
                            + "\n\nPARAMETERS:\n"@,
                        out@ == header + param_details(pseq.take(idx as int)),
                    decreases n - idx,
                {
                    proof {
                        assert(pseq.take(idx as int + 1).drop_last() =~= pseq.take(idx as int));
                        assert(pseq.take(idx as int + 1).last() == pseq[idx as int]);
                    }
                    match &parameters[idx] {
                        Parameter::Mandatory { parameter_name, help } => {
                            out.append("  <");
                            out.append(parameter_name.as_str());
                            out.append(">\n    ");
                            match help {
                                Some(h) => out.append(h.as_str()),
                                None => out.append("Undocumented option"),
                            }
                            out.append("\n\n");
                        },
                        Parameter::Optional { parameter_name, help } => {
                            out.append("  <");
                            out.append(parameter_name.as_str());
                            out.append(">\n    ");
                            match help {
                                Some(h) => out.append(h.as_str()),
                                None => out.append("Undocumented option"),
                            }
                            out.append("\n\n");
                        },
                        Parameter::Named { parameter_name, help } => {
                            out.append("  --");
                            out.append(parameter_name.as_str());
                            out.append("\n    ");
                            match help {
                                Some(h) => out.append(h.as_str()),
                                None => out.append("Undocumented option"),
                            }
                            out.append("\n\n");
                        },
                        Parameter::NamedValue { parameter_name, argument_name, help } => {
                            out.append("  --");
                            out.append(parameter_name.as_str());
                            out.append("=");
                            out.append(argument_name.as_str());
                            out.append("\n    ");
                            match help {
                                Some(h) => out.append(h.as_str()),
                                None => out.append("Undocumented option"),
                            }
                            out.append("\n\n");
                        },
                    }
                    proof {
                        assert(out@ =~= header + param_details(pseq.take(idx as int + 1)));
                    }
                    idx = idx + 1;
                }
                proof {
                    assert(pseq.take(n as int) =~= pseq);
                }
            }
        },
        ItemType::Menu(_) => {},
    }
    match &item.help {
        Some(h) => {
            out.append("\n\nDESCRIPTION:\n");
            out.append(h.as_str());
            out.append("\n");
        },
        None => {},
    }
    proof {
        assert(out@ =~= long_help_text(*item));
    }
    out
}

} // verus!
