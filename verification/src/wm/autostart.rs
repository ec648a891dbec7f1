//! The start-up commands: which to run, and how they split into a program
//! and its arguments.
use vstd::prelude::*;

use crate::text::{
    chars_of, parse_u32, parse_unsigned, pieces, split_bounds, split_on, split_words, text_eq,
    words,
};

verus! {

/// The display number part of a `DISPLAY` value: after a leading `:`, up to
/// the first `.`.
pub open spec fn display_number_text(d: Seq<char>) -> Option<Seq<char>> {
    if d.len() > 0 && d[0] == ':' {
        Some(split_on(d.drop_first(), '.')[0])
    } else {
        None
    }
}

/// Whether `DISPLAY` names a display other than `:0` (a nested X server
/// such as Xephyr): its display number reads as a `u32` above 0.
pub open spec fn nested_display(display: Option<Seq<char>>) -> bool {
    match display {
        Some(d) => match display_number_text(d) {
            Some(t) => match parse_unsigned(t, 10, u32::MAX as nat) {
                Ok(n) => n > 0,
                Err(_) => false,
            },
            None => false,
        },
        None => false,
    }
}

/// Whether the `DISPLAY` value names a nested X server, where a compositor
/// is better not started.
pub fn is_nested_display(display: Option<&str>) -> (r: bool)
    ensures
        r == nested_display(match display {
            Some(d) => Some(d@),
            None => None,
        }),
{
    let d = match display {
        Some(d) => d,
        None => {
            return false;
        },
    };
    let v = chars_of(d);
    if v.len() == 0 || v[0] != ':' {
        return false;
    }
    let rest = d.substring_char(1, v.len());
    proof {
        assert(rest@ =~= d@.drop_first());
    }
    let rv = chars_of(rest);
    let parts = split_bounds(&rv, '.');
    proof {
        assert(split_on(rv@, '.').len() >= 1) by {
            lemma_split_nonempty(rv@, '.', Seq::empty());
        }
        assert(pieces(rv@, parts@)[0] == rv@.subrange(parts[0].0 as int, parts[0].1 as int));
    }
    let (a, b) = parts[0];
    let first = rest.substring_char(a, b);
    proof {
        assert(d@[0] == v@[0]);
        assert(first@ == split_on(d@.drop_first(), '.')[0]);
        assert(display_number_text(d@) == Some(first@));
        crate::text::lemma_parse_bounded(first@, 10, u32::MAX as nat);
    }
    match parse_u32(first) {
        Some(n) => n > 0,
        None => false,
    }
}

proof fn lemma_split_nonempty(s: Seq<char>, sep: char, cur: Seq<char>)
    ensures
        crate::text::split_from(s, sep, cur).len() >= 1,
    decreases s.len(),
{
    if s.len() > 0 {
        if s[0] != sep {
            lemma_split_nonempty(s.drop_first(), sep, cur.push(s[0]));
        }
    }
}

/// One start-up command, read.
#[derive(Debug, Clone, PartialEq, Eq)]
pub enum AutostartStep {
    /// Run `program` with `args`; `command` is the command as written.
    Launch { command: String, program: String, args: Vec<String> },
    /// A compositor on a nested display: not run.
    SkipNested { command: String },
}

/// A start-up step with its texts as character sequences.
pub enum AutostartStepView {
    /// Run a program.
    Launch { command: Seq<char>, program: Seq<char>, args: Seq<Seq<char>> },
    /// Not run.
    SkipNested { command: Seq<char> },
}

impl View for AutostartStep {
    type V = AutostartStepView;

    open spec fn view(&self) -> AutostartStepView {
        match self {
            AutostartStep::Launch { command, program, args } => AutostartStepView::Launch {
                command: command@,
                program: program@,
                args: Seq::new(args@.len(), |i: int| args@[i]@),
            },
            AutostartStep::SkipNested { command } => AutostartStepView::SkipNested {
                command: command@,
            },
        }
    }
}

/// The step for one command: none for a blank command; `picom` is skipped on
/// a nested display; otherwise its first word is the program and the other
/// words its arguments.
pub open spec fn step_of(cmd: Seq<char>, nested: bool) -> Option<AutostartStepView> {
    let ws = words(cmd);
    if ws.len() == 0 {
        None
    } else if nested && ws[0] == "picom"@ {
        Some(AutostartStepView::SkipNested { command: cmd })
    } else {
        Some(AutostartStepView::Launch { command: cmd, program: ws[0], args: ws.drop_first() })
    }
}

/// The steps for the commands, in order, blank ones left out.
pub open spec fn plan_of(cmds: Seq<Seq<char>>, nested: bool) -> Seq<AutostartStepView>
    decreases cmds.len(),
{
    if cmds.len() == 0 {
        Seq::empty()
    } else {
        match step_of(cmds.last(), nested) {
            Some(s) => plan_of(cmds.drop_last(), nested).push(s),
            None => plan_of(cmds.drop_last(), nested),
        }
    }
}

/// The steps to take for the start-up commands, `nested` telling whether
/// the display is a nested X server.
pub fn plan_autostart(commands: &[String], nested: bool) -> (r: Vec<AutostartStep>)
    ensures
        r@.len() == plan_of(commands@.map_values(|c: String| c@), nested).len(),
        forall|i: int|
            0 <= i < r@.len() ==> #[trigger] r@[i]@ == plan_of(
                commands@.map_values(|c: String| c@),
                nested,
            )[i],
{
    let ghost cs = commands@.map_values(|c: String| c@);
    let mut r: Vec<AutostartStep> = Vec::new();
    let mut k: usize = 0;
    proof {
        assert(cs.take(0) =~= Seq::<Seq<char>>::empty());
    }
    while k < commands.len()
        invariant
            k <= commands.len(),
            cs == commands@.map_values(|c: String| c@),
            r@.len() == plan_of(cs.take(k as int), nested).len(),
            forall|i: int| 0 <= i < r@.len() ==> #[trigger] r@[i]@ == plan_of(cs.take(k as int), nested)[i],
        decreases commands.len() - k,
    {
        proof {
            assert(cs.take(k + 1).drop_last() =~= cs.take(k as int));
            assert(cs.take(k + 1).last() == commands@[k as int]@);
        }
        let cmd = &commands[k];
        let ws = split_words(cmd.as_str());
        let ghost old_r = r@;
        if ws.len() > 0 {
            if nested && text_eq(ws[0].as_str(), "picom") {
                r.push(AutostartStep::SkipNested { command: cmd.clone() });
            } else {
                let mut args: Vec<String> = Vec::new();
                let mut j: usize = 1;
                while j < ws.len()
                    invariant
                        1 <= j <= ws.len(),
                        args@.len() == j - 1,
                        forall|q: int| 0 <= q < args@.len() ==> #[trigger] args@[q]@ == ws@[q + 1]@,
                    decreases ws.len() - j,
                {
                    args.push(ws[j].clone());
                    j = j + 1;
                }
                let program = ws[0].clone();
                let step = AutostartStep::Launch { command: cmd.clone(), program, args };
                proof {
                    let wv = words(cmd@);
                    assert(Seq::new(args@.len(), |i: int| args@[i]@) =~= wv.drop_first());
                }
                r.push(step);
            }
            proof {
                assert forall|i: int| 0 <= i < r@.len() implies #[trigger] r@[i]@ == plan_of(
                    cs.take(k + 1),
                    nested,
                )[i] by {
                    if i < old_r.len() {
                        assert(r@[i] == old_r[i]);
                    }
                }
            }
        }
        k = k + 1;
    }
    proof {
        assert(cs.take(commands.len() as int) =~= cs);
    }
    r
}

} // verus!
