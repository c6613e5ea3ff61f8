//! What a listener is told, and how it is written down.
use crate::text::{cat, cat3, chars_of, has_prefix, lines, lines_of, split_on, split_text, strip_prefix, trim_end, trim_start, trimmed_end, trimmed_start};
use vstd::prelude::*;
use vstd::string::StringSliceAdditionalSpecFns;

verus! {

/// Something a listener is told.
#[derive(Debug)]
pub enum Message {
    Warning(String),
    Info(String),
    Progress(String, String),
}

pub enum MessageView {
    Warning(Seq<char>),
    Info(Seq<char>),
    Progress(Seq<char>, Seq<char>),
}

impl DeepView for Message {
    type V = MessageView;

    open spec fn deep_view(&self) -> MessageView {
        match self {
            Message::Warning(s) => MessageView::Warning(s@),
            Message::Info(s) => MessageView::Info(s@),
            Message::Progress(op, s) => MessageView::Progress(op@, s@),
        }
    }
}

/// One who is told what happens.
pub trait Listener: Send + Sync {
    fn warning(&self, s: String);

    fn info(&self, s: String);

    fn progress(&self, operation: &str, detail: String) {
        self.info(cat3(operation, ": ", detail.as_str()));
    }

    /// Notified when finished writing .deb file (possibly before install)
    fn generated_archive(&self, path: &str);
}

/// One who does not listen.
pub struct NoOpListener;

impl Listener for NoOpListener {
    fn warning(&self, _s: String) {
    }

    fn info(&self, _s: String) {
    }

    fn progress(&self, _op: &str, _s: String) {
    }

    fn generated_archive(&self, _path: &str) {
    }
}

/// The message with a prefix in front of its text.
pub open spec fn prefixed(prefix: Seq<char>, m: MessageView) -> MessageView {
    match m {
        MessageView::Warning(s) => MessageView::Warning(prefix + s),
        MessageView::Info(s) => MessageView::Info(prefix + s),
        MessageView::Progress(op, s) => MessageView::Progress(op, prefix + s),
    }
}

impl Message {
    /// The message with a prefix in front of its text.
    pub fn with_prefix(self, prefix: &str) -> (r: Message)
        ensures
            r.deep_view() == prefixed(prefix@, self.deep_view()),
    {
        match self {
            Message::Warning(s) => Message::Warning(cat(prefix, s.as_str())),
            Message::Info(s) => Message::Info(cat(prefix, s.as_str())),
            Message::Progress(op, s) => Message::Progress(op, cat(prefix, s.as_str())),
        }
    }

    /// Tells a listener.
    pub fn tell(self, listener: &dyn Listener) {
        match self {
            Message::Warning(s) => listener.warning(s),
            Message::Info(s) => listener.info(s),
            Message::Progress(op, s) => listener.progress(op.as_str(), s),
        }
    }
}

/// Adds a message.
pub(crate) fn say(log: &mut Vec<Message>, m: Message)
    ensures
        final(log).deep_view() == old(log).deep_view().push(m.deep_view()),
{
    let ghost before = log.deep_view();
    log.push(m);
    assert(log.deep_view() =~= before.push(m.deep_view()));
}

/// Adds a warning.
pub(crate) fn warn(log: &mut Vec<Message>, text: String)
    ensures
        final(log).deep_view() == old(log).deep_view() + seq![MessageView::Warning(text@)],
{
    let ghost before = log.deep_view();
    let ghost t = text@;
    log.push(Message::Warning(text));
    assert(log.deep_view() =~= before + seq![MessageView::Warning(t)]);
}

/// Tells a listener all messages, in order.
pub fn tell_all(messages: Vec<Message>, listener: &dyn Listener) {
    for m in messages {
        m.tell(listener);
    }
}

/// A listener that hears a prefix in front of each text.
pub struct PrefixedListener<'l>(pub &'l str, pub &'l dyn Listener);

impl<'l> Listener for PrefixedListener<'l> {
    fn warning(&self, s: String) {
        Message::Warning(s).with_prefix(self.0).tell(self.1);
    }

    fn info(&self, s: String) {
        Message::Info(s).with_prefix(self.0).tell(self.1);
    }

    fn progress(&self, operation: &str, s: String) {
        Message::Progress(operation.to_owned(), s).with_prefix(self.0).tell(self.1);
    }

    fn generated_archive(&self, path: &str) {
        self.1.generated_archive(path);
    }
}

// ---------------------------------------------------------------------------
// Messages on a terminal
// ---------------------------------------------------------------------------
/// What is to be shown.
pub struct Verbosity {
    pub verbose: bool,
    pub quiet: bool,
}

impl Verbosity {
    /// Warnings are shown unless quiet is wanted, everything else only where much is wanted.
    pub open spec fn shown(self, m: MessageView) -> bool {
        match m {
            MessageView::Warning(_) => !self.quiet,
            _ => self.verbose,
        }
    }

    pub fn shows(&self, m: &Message) -> (r: bool)
        ensures
            r == self.shown(m.deep_view()),
    {
        match m {
            Message::Warning(_) => !self.quiet,
            _ => self.verbose,
        }
    }
}

/// `n` spaces.
pub open spec fn spaces(n: nat) -> Seq<char> {
    Seq::new(n, |i: int| ' ')
}

fn spaces_of(n: usize) -> (s: String)
    ensures
        s@ == spaces(n as nat),
{
    let mut s = String::new();
    let mut i: usize = 0;
    while i < n
        invariant
            i <= n,
            s@ == spaces(i as nat),
        decreases n - i,
    {
        s.push(' ');
        assert(s@ =~= spaces((i + 1) as nat));
        i += 1;
    }
    s
}

/// A text that begins with the label and a colon, without them; and without white space at its end.
pub open spec fn label_text(label: Seq<char>, text: Seq<char>) -> Seq<char> {
    let prefix = label + seq![':', ' '];
    trim_end(if has_prefix(text, prefix) {
        text.skip(prefix.len() as int)
    } else {
        text
    })
}

/// What stands behind a label: the first line beside it, the others below, indented as far.
#[derive(Debug)]
pub struct Labelled {
    /// What the line with the label begins with.
    pub indent: String,
    /// The text beside the label.
    pub first: String,
    /// The lines below.
    pub below: Vec<String>,
}

/// The lines behind the first, each as far to the right as the text beside the label.
pub open spec fn lines_below(text: Seq<Seq<char>>, width: nat) -> Seq<Seq<char>> {
    text.skip(1).map_values(|l: Seq<char>| spaces(width) + l)
}

/// How a text is written behind a label; nothing for a text without lines.
pub fn labelled(label: &str, indent: u8, text: &str) -> (r: Option<Labelled>)
    requires
        label.spec_bytes().len() + 257 <= usize::MAX,
    ensures
        ({
            let ls = lines(label_text(label@, text@));
            &&& r is Some <==> ls.len() > 0
            &&& r is Some ==> {
                &&& (r->0).indent@ == spaces(indent as nat)
                &&& (r->0).first@ == ls[0]
                &&& (r->0).below.deep_view() == lines_below(
                    ls,
                    (indent + label.spec_bytes().len() + 2) as nat,
                )
            }
        }),
{
    let prefix = cat(label, ": ");
    proof {
        reveal_strlit(": ");
        assert(prefix@ =~= label@ + seq![':', ' ']);
    }
    let stripped = match strip_prefix(text, prefix.as_str()) {
        Some(t) => t,
        None => text.to_owned(),
    };
    let shown = trimmed_end(stripped.as_str());
    let ls = lines_of(shown.as_str());
    let ghost lv = lines(label_text(label@, text@));
    assert(ls.deep_view() == lv);
    if ls.len() == 0 {
        return None;
    }
    let width: usize = indent as usize + label.len() + 2;
    let pad = spaces_of(width);
    let mut below: Vec<String> = Vec::new();
    let mut i: usize = 1;
    let ghost all = lines_below(lv, width as nat);
    assert(below.deep_view() =~= all.take(0));
    while i < ls.len()
        invariant
            1 <= i <= ls.len(),
            ls.deep_view() == lv,
            pad@ == spaces(width as nat),
            all == lines_below(lv, width as nat),
            below.deep_view() == all.take(i - 1),
        decreases ls.len() - i,
    {
        let ghost before = below.deep_view();
        assert(ls.deep_view()[i as int] == ls[i as int]@);
        let line = cat(pad.as_str(), ls[i].as_str());
        let ghost l = line@;
        below.push(line);
        assert(below.deep_view() =~= before.push(l));
        assert(all[i - 1] == l);
        assert(all.take(i as int) =~= all.take(i - 1).push(all[i - 1]));
        i += 1;
    }
    assert(all.take(ls.len() - 1) =~= all);
    assert(ls.deep_view()[0] == ls[0]@);
    Some(Labelled { indent: spaces_of(indent as usize), first: ls[0].clone(), below })
}

/// The notes of an error message: what follows each line that begins with `note: `, without white
/// space at its beginning, where there is something.
pub open spec fn note_texts(pieces: Seq<Seq<char>>) -> Seq<Seq<char>>
    decreases pieces.len(),
{
    if pieces.len() == 0 {
        Seq::empty()
    } else {
        let before = note_texts(pieces.drop_last());
        let note = trim_start(pieces.last());
        if note.len() == 0 {
            before
        } else {
            before.push(note)
        }
    }
}

/// The message of an error apart from its notes.
pub fn split_notes(message: &str) -> (r: (String, Vec<String>))
    ensures
        r.0@ == split_text(message@, "\nnote: "@)[0],
        r.1.deep_view() == note_texts(split_text(message@, "\nnote: "@).skip(1)),
{
    proof {
        reveal_strlit("\nnote: ");
    }
    let pieces = split_on(message, "\nnote: ");
    let ghost all = split_text(message@, "\nnote: "@);
    assert(pieces.deep_view()[0] == pieces[0]@);
    let mut notes: Vec<String> = Vec::new();
    let mut i: usize = 1;
    let ghost rest = all.skip(1);
    assert(rest.take(0) =~= Seq::<Seq<char>>::empty());
    assert(notes.deep_view() =~= note_texts(rest.take(0)));
    while i < pieces.len()
        invariant
            1 <= i <= pieces.len(),
            pieces.deep_view() == all,
            rest == all.skip(1),
            notes.deep_view() == note_texts(rest.take(i - 1)),
        decreases pieces.len() - i,
    {
        let ghost before = notes.deep_view();
        assert(all[i as int] == pieces[i as int]@);
        assert(rest.take(i as int).drop_last() =~= rest.take(i - 1));
        assert(rest.take(i as int).last() == pieces[i as int]@);
        let note = trimmed_start(pieces[i].as_str());
        if !note.as_str().is_empty() {
            let ghost n = note@;
            notes.push(note);
            assert(notes.deep_view() =~= before.push(n));
        }
        i += 1;
    }
    assert(rest.take(pieces.len() - 1) =~= rest);
    (pieces[0].clone(), notes)
}

// ---------------------------------------------------------------------------
// Errors on a terminal
// ---------------------------------------------------------------------------
/// Something that is written behind a label.
#[derive(Debug)]
pub struct ReportLine {
    pub label: &'static str,
    pub indent: u8,
    pub text: String,
}

pub struct ReportView {
    pub label: Seq<char>,
    pub indent: u8,
    pub text: Seq<char>,
}

impl DeepView for ReportLine {
    type V = ReportView;

    open spec fn deep_view(&self) -> ReportView {
        ReportView { label: self.label@, indent: self.indent, text: self.text@ }
    }
}

/// What is written of an error, and of its notes. An error that is behind another one is a cause,
/// and stands further to the right.
pub open spec fn one_report(message: Seq<char>, primary: bool) -> Seq<ReportView> {
    let pieces = split_text(message, "\nnote: "@);
    seq![
        ReportView {
            label: if primary {
                "error"@
            } else {
                "cause"@
            },
            indent: if primary {
                0
            } else {
                2
            },
            text: pieces[0],
        },
    ] + note_texts(pieces.skip(1)).map_values(
        |note: Seq<char>|
            ReportView {
                label: "note"@,
                indent: if primary {
                    0
                } else {
                    3
                },
                text: note,
            },
    )
}

/// What is written of causes.
pub open spec fn cause_reports(causes: Seq<Seq<char>>) -> Seq<ReportView>
    decreases causes.len(),
{
    if causes.len() == 0 {
        Seq::empty()
    } else {
        cause_reports(causes.drop_last()) + one_report(causes.last(), false)
    }
}

/// How many causes are written at most.
pub const MAX_CAUSES: usize = 4;

/// What is written of an error: itself, and the nearest errors behind it.
pub open spec fn full_report(message: Seq<char>, causes: Seq<Seq<char>>) -> Seq<ReportView> {
    one_report(message, true) + cause_reports(
        if causes.len() <= MAX_CAUSES {
            causes
        } else {
            causes.take(MAX_CAUSES as int)
        },
    )
}

fn error_with_notes(out: &mut Vec<ReportLine>, message: &str, primary_error: bool)
    ensures
        final(out).deep_view() == old(out).deep_view() + one_report(message@, primary_error),
{
    let ghost start = out.deep_view();
    let ghost all = note_texts(split_text(message@, "\nnote: "@).skip(1));
    let (first, notes) = split_notes(message);
    let ghost head = ReportView {
        label: if primary_error {
            "error"@
        } else {
            "cause"@
        },
        indent: if primary_error {
            0
        } else {
            2
        },
        text: first@,
    };
    out.push(
        ReportLine {
            label: if primary_error {
                "error"
            } else {
                "cause"
            },
            indent: if primary_error {
                0
            } else {
                2
            },
            text: first,
        },
    );
    assert(out.deep_view() =~= start.push(head));
    let indent: u8 = if primary_error {
        0
    } else {
        3
    };
    let ghost lines = all.map_values(
        |note: Seq<char>| ReportView { label: "note"@, indent, text: note },
    );
    assert(start.push(head) + lines.take(0) =~= start.push(head));
    for note in it: notes
        invariant
            it.seq() == notes@,
            notes.deep_view() == all,
            lines == all.map_values(
                |note: Seq<char>| ReportView { label: "note"@, indent, text: note },
            ),
            out.deep_view() == start.push(head) + lines.take(it.index()),
    {
        let ghost before = out.deep_view();
        let ghost i = it.index();
        let ghost n = note@;
        assert(all[i] == n);
        out.push(ReportLine { label: "note", indent, text: note });
        assert(out.deep_view() =~= before.push(ReportView { label: "note"@, indent, text: n }));
        assert(lines.take(i + 1) =~= lines.take(i).push(lines[i]));
        assert(start.push(head) + lines.take(i + 1) =~= (start.push(head) + lines.take(i)).push(
            lines[i],
        ));
    }
    assert(lines.take(lines.len() as int) =~= lines);
    assert(start.push(head) + lines =~= start + (seq![head] + lines));
    assert(seq![head] + lines =~= one_report(message@, primary_error));
}

/// What is written of an error, given those behind it.
pub fn error_report(message: &str, causes: &Vec<String>) -> (r: Vec<ReportLine>)
    ensures
        r.deep_view() == full_report(message@, causes.deep_view()),
{
    let mut out: Vec<ReportLine> = Vec::new();
    let ghost none = out.deep_view();
    assert(none =~= Seq::<ReportView>::empty());
    error_with_notes(&mut out, message, true);
    let ghost head = one_report(message@, true);
    assert(out.deep_view() =~= head);
    let ghost all = causes.deep_view();
    let n: usize = if causes.len() <= MAX_CAUSES {
        causes.len()
    } else {
        MAX_CAUSES
    };
    let mut i: usize = 0;
    assert(all.take(0) =~= Seq::<Seq<char>>::empty());
    assert(head + cause_reports(all.take(0)) =~= head);
    while i < n
        invariant
            i <= n <= causes.len(),
            all == causes.deep_view(),
            out.deep_view() == head + cause_reports(all.take(i as int)),
        decreases n - i,
    {
        assert(all[i as int] == causes[i as int]@);
        assert(all.take(i + 1).drop_last() =~= all.take(i as int));
        assert(all.take(i + 1).last() == all[i as int]);
        error_with_notes(&mut out, causes[i].as_str(), false);
        assert(out.deep_view() =~= head + cause_reports(all.take(i + 1)));
        i += 1;
    }
    assert(n == all.len() ==> all.take(n as int) =~= all);
    out
}

/// A text as wide as `width`, with spaces in front of it where it is shorter.
pub open spec fn right_aligned(s: Seq<char>, width: nat) -> Seq<char> {
    if s.len() < width {
        spaces((width - s.len()) as nat) + s
    } else {
        s
    }
}

/// What stands in front of the operation on a line of progress, to align it.
pub fn align_right(s: &str, width: usize) -> (r: String)
    ensures
        r@ == right_aligned(s@, width as nat),
{
    let n: usize = chars_of(s).len();
    if n < width {
        let pad = spaces_of(width - n);
        cat(pad.as_str(), s)
    } else {
        s.to_owned()
    }
}

} // verus!
