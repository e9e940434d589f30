//! The plain-text transcript: one block per message, a marker line `ROLE:`,
//! the content's lines, then one blank line.
//!
//! Markers are recognised literally at the start of a line, so a content line
//! that begins with a marker is read back as the start of a new block: the
//! format has no escaping.
use vstd::prelude::*;

use crate::text::{chars_of, is_space, kept_len, space, string_of, trim_end};
use crate::{role_from_name, role_marker, views, Message, Role};

verus! {

/// Whether `line` begins with the marker of `r`.
pub open spec fn marked_by(line: Seq<char>, r: Role) -> bool {
    role_marker(r).is_prefix_of(line)
}

/// The role whose marker begins `line`, if any.
pub open spec fn marker_role(line: Seq<char>) -> Option<Role> {
    if marked_by(line, Role::System) {
        Some(Role::System)
    } else if marked_by(line, Role::User) {
        Some(Role::User)
    } else if marked_by(line, Role::Assistant) {
        Some(Role::Assistant)
    } else {
        None
    }
}

/// No two markers can begin the same line: they differ in their first letter.
pub proof fn lemma_marker_role(line: Seq<char>, r: Role)
    requires
        marked_by(line, r),
    ensures
        marker_role(line) == Some(r),
{
    assert(role_marker(Role::System)[0] == 'S');
    assert(role_marker(Role::User)[0] == 'U');
    assert(role_marker(Role::Assistant)[0] == 'A');
    assert(role_marker(r)[0] == line[0]);
}

/// The length of `s` once trailing colons and line feeds are cut off.
pub open spec fn head_len(s: Seq<char>) -> nat
    decreases s.len(),
{
    if s.len() == 0 {
        0
    } else if s.last() == ':' || s.last() == '\n' {
        head_len(s.drop_last())
    } else {
        s.len()
    }
}

/// The first line of a transcript without its trailing colons and line feeds.
pub open spec fn start_name(line: Seq<char>) -> Seq<char> {
    line.subrange(0, head_len(line) as int)
}

/// Where a reader stands: the role of the block being read (none before the
/// first line), the text read for it so far, and the blocks already closed.
pub struct Progress {
    pub role: Option<Role>,
    pub buffer: Seq<char>,
    pub done: Seq<(Role, Seq<char>)>,
}

/// A reader before its first line.
pub open spec fn fresh() -> Progress {
    Progress { role: None, buffer: Seq::empty(), done: Seq::empty() }
}

/// What reading one more line does; `None` when the first line names no role.
pub open spec fn feed_line(p: Progress, line: Seq<char>) -> Option<Progress> {
    match p.role {
        None => match role_from_name(start_name(line)) {
            Some(r) => Some(Progress { role: Some(r), buffer: Seq::empty(), done: p.done }),
            None => None,
        },
        Some(current) => match marker_role(line) {
            Some(r) => Some(
                Progress {
                    role: Some(r),
                    buffer: Seq::empty(),
                    done: p.done.push((current, trim_end(p.buffer))),
                },
            ),
            None => Some(Progress { role: Some(current), buffer: p.buffer + line, done: p.done }),
        },
    }
}

/// Reading lines one after another, stopping at the first failure.
pub open spec fn feed_lines(p: Progress, lines: Seq<Seq<char>>) -> Option<Progress>
    decreases lines.len(),
{
    if lines.len() == 0 {
        Some(p)
    } else {
        match feed_lines(p, lines.drop_last()) {
            Some(q) => feed_line(q, lines.last()),
            None => None,
        }
    }
}

/// The messages read once the input ends: the open block, if any, is closed.
pub open spec fn close(p: Progress) -> Seq<(Role, Seq<char>)> {
    match p.role {
        None => p.done,
        Some(r) => p.done.push((r, trim_end(p.buffer))),
    }
}

/// `s` cut after each line feed, as `BufRead::read_line` hands it out: every
/// piece but the last ends with its line feed, and none is empty.
pub open spec fn split_lines(s: Seq<char>) -> Seq<Seq<char>>
    decreases s.len(),
{
    if s.len() == 0 {
        Seq::empty()
    } else {
        let rest = split_lines(s.drop_last());
        if s.len() == 1 || s[s.len() - 2] == '\n' {
            rest.push(seq![s.last()])
        } else {
            rest.update(rest.len() - 1, rest.last().push(s.last()))
        }
    }
}

/// The messages a transcript holds, or `None` when its first line names no role.
pub open spec fn decoded(s: Seq<char>) -> Option<Seq<(Role, Seq<char>)>> {
    match feed_lines(fresh(), split_lines(s)) {
        Some(p) => Some(close(p)),
        None => None,
    }
}

pub proof fn lemma_split_lines_nonempty(s: Seq<char>)
    ensures
        s.len() > 0 ==> split_lines(s).len() > 0,
    decreases s.len(),
{
    if s.len() > 0 {
        lemma_split_lines_nonempty(s.drop_last());
    }
}

/// Text cut at a line end splits into the lines of each part.
pub proof fn lemma_split_lines_concat(a: Seq<char>, b: Seq<char>)
    requires
        a.len() == 0 || a.last() == '\n',
    ensures
        split_lines(a + b) == split_lines(a) + split_lines(b),
    decreases b.len(),
{
    if b.len() == 0 {
        assert(a + b =~= a);
        assert(split_lines(b) =~= Seq::<Seq<char>>::empty());
        assert(split_lines(a) + split_lines(b) =~= split_lines(a));
    } else {
        let ab = a + b;
        let b1 = b.drop_last();
        assert(ab.drop_last() =~= a + b1);
        lemma_split_lines_concat(a, b1);
        lemma_split_lines_nonempty(b1);
        assert(ab.last() == b.last());
        if b.len() == 1 {
            assert(b1 =~= Seq::<char>::empty());
            assert(split_lines(b1) =~= Seq::<Seq<char>>::empty());
            assert(split_lines(a) + split_lines(b1) =~= split_lines(a));
            assert(ab.len() == 1 || ab[ab.len() - 2] == a.last());
            assert(split_lines(ab) =~= split_lines(a) + split_lines(b));
        } else {
            assert(ab[ab.len() - 2] == b[b.len() - 2]);
            assert(split_lines(ab) =~= split_lines(a) + split_lines(b));
        }
    }
}

/// Reading two runs of lines is reading the first, then the second.
pub proof fn lemma_feed_lines_concat(p: Progress, l1: Seq<Seq<char>>, l2: Seq<Seq<char>>)
    ensures
        feed_lines(p, l1 + l2) == match feed_lines(p, l1) {
            Some(q) => feed_lines(q, l2),
            None => None,
        },
    decreases l2.len(),
{
    if l2.len() == 0 {
        assert(l1 + l2 =~= l1);
    } else {
        assert((l1 + l2).drop_last() =~= l1 + l2.drop_last());
        lemma_feed_lines_concat(p, l1, l2.drop_last());
    }
}

/// Once a line has named the role, the reader has left its start.
pub proof fn lemma_feed_lines_started(p: Progress, lines: Seq<Seq<char>>)
    requires
        lines.len() > 0,
        feed_lines(p, lines) is Some,
    ensures
        feed_lines(p, lines)->Some_0.role is Some,
    decreases lines.len(),
{
    if lines.len() > 1 {
        lemma_feed_lines_started(p, lines.drop_last());
    }
}

/// The first `i` characters of `s`, less each carriage return that comes just
/// before a line feed.
pub open spec fn strip_cr(s: Seq<char>, i: nat) -> Seq<char>
    decreases i,
{
    if i == 0 || i > s.len() {
        Seq::empty()
    } else if s[i - 1] == '\r' && i < s.len() && s[i as int] == '\n' {
        strip_cr(s, (i - 1) as nat)
    } else {
        strip_cr(s, (i - 1) as nat).push(s[i - 1])
    }
}

/// What writing each of `str::lines(c)` followed by a line feed gives: the
/// line ends `\r\n` become `\n`, and a last line without one gets one.
pub open spec fn body_text(c: Seq<char>) -> Seq<char> {
    if c.len() > 0 && c.last() != '\n' {
        strip_cr(c, c.len()).push('\n')
    } else {
        strip_cr(c, c.len())
    }
}

/// The block of one message: marker line, content lines, blank line.
pub open spec fn block(m: (Role, Seq<char>)) -> Seq<char> {
    role_marker(m.0).push('\n') + body_text(m.1).push('\n')
}

/// The transcript of a sequence of messages: their blocks, in order.
pub open spec fn encoding(ms: Seq<(Role, Seq<char>)>) -> Seq<char>
    decreases ms.len(),
{
    if ms.len() == 0 {
        Seq::empty()
    } else {
        encoding(ms.drop_last()) + block(ms.last())
    }
}

/// Appends the block of `m` to `out`.
fn push_block(out: &mut Vec<char>, m: &Message)
    ensures
        final(out)@ == old(out)@ + block(m@),
{
    let marker = chars_of(m.role.marker());
    out.extend_from_slice(marker.as_slice());
    out.push('\n');
    let ghost head = out@;
    let cs = chars_of(m.content.as_str());
    let n = cs.len();
    let mut i: usize = 0;
    while i < n
        invariant
            i <= n == cs@.len(),
            cs@ == m.content@,
            out@ == head + strip_cr(cs@, i as nat),
        decreases n - i,
    {
        let c = cs[i];
        if !(c == '\r' && i + 1 < n && cs[i + 1] == '\n') {
            out.push(c);
        }
        i += 1;
    }
    if n > 0 && cs[n - 1] != '\n' {
        out.push('\n');
    }
    out.push('\n');
    assert(out@ =~= old(out)@ + block(m@));
}

/// The block that recording `message` writes.
pub fn encode_block(message: &Message) -> (r: String)
    ensures
        r@ == block(message@),
{
    let mut out: Vec<char> = Vec::new();
    push_block(&mut out, message);
    assert(out@ =~= block(message@));
    string_of(out.as_slice())
}

/// The transcript of `messages`: their blocks, in order.
pub fn encode(messages: &[Message]) -> (r: String)
    ensures
        r@ == encoding(views(messages@)),
{
    let mut out: Vec<char> = Vec::new();
    let mut i: usize = 0;
    assert(views(messages@).subrange(0, 0) =~= Seq::<(Role, Seq<char>)>::empty());
    while i < messages.len()
        invariant
            i <= messages@.len(),
            out@ == encoding(views(messages@).subrange(0, i as int)),
        decreases messages@.len() - i,
    {
        push_block(&mut out, &messages[i]);
        assert(views(messages@).subrange(0, i + 1).drop_last() =~= views(messages@).subrange(
            0,
            i as int,
        ));
        i += 1;
    }
    assert(views(messages@).subrange(0, i as int) =~= views(messages@));
    string_of(out.as_slice())
}

/// `parts` joined with `|` between each two.
pub open spec fn alternation(parts: Seq<Seq<char>>) -> Seq<char>
    decreases parts.len(),
{
    if parts.len() == 0 {
        Seq::empty()
    } else if parts.len() == 1 {
        parts[0]
    } else {
        alternation(parts.drop_last()).push('|') + parts.last()
    }
}

/// The markers of `roles`, in order.
pub open spec fn markers(roles: Seq<Role>) -> Seq<Seq<char>> {
    roles.map_values(|r: Role| role_marker(r))
}

/// The alternation of every role's marker (`SYSTEM:|USER:|ASSISTANT:`), built
/// from the full set of roles.
pub fn role_regex() -> (r: String)
    ensures
        r@ == alternation(markers(crate::all_roles())),
{
    let roles = Role::all();
    let mut out: Vec<char> = Vec::new();
    let mut i: usize = 0;
    assert(markers(roles@).subrange(0, 0) =~= Seq::<Seq<char>>::empty());
    while i < roles.len()
        invariant
            i <= roles@.len(),
            roles@ == crate::all_roles(),
            out@ == alternation(markers(roles@).subrange(0, i as int)),
        decreases roles@.len() - i,
    {
        let ghost before = out@;
        if i > 0 {
            out.push('|');
        }
        let m = chars_of(roles[i].marker());
        out.extend_from_slice(m.as_slice());
        let ghost upto = markers(roles@).subrange(0, i + 1);
        assert(upto.drop_last() =~= markers(roles@).subrange(0, i as int));
        if i == 0 {
            assert(out@ =~= alternation(upto));
        } else {
            assert(out@ =~= alternation(upto));
        }
        i += 1;
    }
    assert(markers(roles@).subrange(0, i as int) =~= markers(roles@));
    string_of(out.as_slice())
}

/// `std::io::Error`, carried opaquely: a sink's write failure.
#[verifier::external_type_specification]
#[verifier::external_body]
pub struct ExIoError(std::io::Error);

/// Relies on `Write::write_all`: writes the text's UTF-8 bytes to the sink,
/// or reports the sink's error.
#[verifier::external_body]
fn write_text<T: std::io::Write>(sink: &mut T, text: &str) -> (r: Result<(), std::io::Error>) {
    sink.write_all(text.as_bytes())
}

/// Writes messages to an optional sink as they happen; without a sink every
/// `record` does nothing.
pub struct Transcript<T> {
    sink: Option<T>,
}

impl<T: std::io::Write> Transcript<T> {
    /// Whether the transcript writes anywhere.
    pub closed spec fn has_sink(&self) -> bool {
        self.sink is Some
    }

    pub fn new(sink: T) -> (r: Result<Transcript<T>, std::io::Error>)
        ensures
            r is Ok && r->Ok_0.has_sink(),
    {
        Ok(Transcript { sink: Some(sink) })
    }

    /// A transcript that writes to `sink` if there is one.
    pub fn conditionally(sink: Option<T>) -> (r: Result<Transcript<T>, std::io::Error>)
        ensures
            r is Ok && r->Ok_0.has_sink() == sink is Some,
    {
        Ok(Transcript { sink })
    }

    /// Writes the block of `message` (see `encode_block`) to the sink, if any.
    pub fn record(&mut self, message: &Message) -> (r: Result<(), std::io::Error>)
        ensures
            final(self).has_sink() == old(self).has_sink(),
            !old(self).has_sink() ==> r is Ok,
    {
        match &mut self.sink {
            Some(s) => {
                let text = encode_block(message);
                write_text(s, text.as_str())
            },
            None => Ok(()),
        }
    }
}

/// Why a transcript could not be read.
#[derive(Debug)]
pub enum TranscriptError {
    /// The first line names no role; it is given without trailing colons and
    /// line feeds.
    InvalidStart(String),
}

/// Whether `line` begins with `marker`.
fn begins_with(line: &[char], marker: &str) -> (r: bool)
    ensures
        r == marker@.is_prefix_of(line@),
{
    let m = chars_of(marker);
    if m.len() > line.len() {
        return false;
    }
    let mut i: usize = 0;
    while i < m.len()
        invariant
            i <= m@.len() <= line@.len(),
            m@ == marker@,
            forall|j: int| 0 <= j < i ==> m@[j] == line@[j],
        decreases m@.len() - i,
    {
        if m[i] != line[i] {
            return false;
        }
        i += 1;
    }
    true
}

/// The role whose marker begins `line`, trying every role.
pub fn line_marker(line: &[char]) -> (r: Option<Role>)
    ensures
        r == marker_role(line@),
{
    let roles = Role::all();
    let mut i: usize = 0;
    while i < roles.len()
        invariant
            i <= roles@.len(),
            roles@ == crate::all_roles(),
            forall|j: int| 0 <= j < i ==> !marked_by(line@, #[trigger] roles@[j]),
        decreases roles@.len() - i,
    {
        let r = roles[i];
        if begins_with(line, r.marker()) {
            proof { lemma_marker_role(line@, r); }
            return Some(r);
        }
        i += 1;
    }
    assert(!marked_by(line@, roles@[0]));
    assert(!marked_by(line@, roles@[1]));
    assert(!marked_by(line@, roles@[2]));
    None
}

/// The length of `line` once trailing white space is cut off.
fn kept_len_of(line: &[char]) -> (r: usize)
    ensures
        r == kept_len(line@),
{
    let mut k: usize = line.len();
    assert(line@.subrange(0, k as int) =~= line@);
    while k > 0 && space(line[k - 1])
        invariant
            k <= line@.len(),
            kept_len(line@) == kept_len(line@.subrange(0, k as int)),
        decreases k,
    {
        assert(line@.subrange(0, k as int).drop_last() =~= line@.subrange(0, k - 1));
        k -= 1;
    }
    proof {
        if k > 0 {
            assert(line@.subrange(0, k as int).last() == line@[k - 1]);
        }
    }
    k
}

/// A streaming transcript reader: hand it the lines of a transcript as they
/// are read, then take the messages once the input ends.
pub struct Decoder {
    role: Option<Role>,
    buffer: Vec<char>,
    done: Vec<Message>,
}

impl Decoder {
    /// Where the reader stands.
    pub closed spec fn progress(&self) -> Progress {
        Progress { role: self.role, buffer: self.buffer@, done: views(self.done@) }
    }

    pub fn new() -> (r: Decoder)
        ensures
            r.progress() == fresh(),
    {
        let r = Decoder { role: None, buffer: Vec::new(), done: Vec::new() };
        assert(views(r.done@) =~= Seq::empty());
        r
    }

    /// Closes the block being read with the text read for it, cut of its
    /// trailing white space.
    fn close_block(&mut self, current: Role)
        requires
            old(self).role == Some(current),
        ensures
            final(self).role == old(self).role,
            final(self).buffer@ == old(self).buffer@,
            views(final(self).done@) == views(old(self).done@).push(
                (current, trim_end(old(self).buffer@)),
            ),
    {
        let kept = kept_len_of(self.buffer.as_slice());
        proof { crate::text::lemma_kept_len_bound(self.buffer@); }
        let content = string_of(vstd::slice::slice_subrange(self.buffer.as_slice(), 0, kept));
        self.done.push(Message { role: current, content });
        assert(views(self.done@) =~= views(old(self).done@).push((current, trim_end(old(self).buffer@))));
    }

    /// Reads one line, with its line feed if it has one.
    pub fn feed_chars(&mut self, line: &[char]) -> (r: Result<(), TranscriptError>)
        ensures
            match feed_line(old(self).progress(), line@) {
                Some(p) => r is Ok && final(self).progress() == p,
                None => final(self).progress() == old(self).progress() && (r matches Err(
                    TranscriptError::InvalidStart(name),
                ) && name@ == start_name(line@)),
            },
    {
        match self.role {
            None => {
                let mut k: usize = line.len();
                assert(line@.subrange(0, k as int) =~= line@);
                while k > 0 && (line[k - 1] == ':' || line[k - 1] == '\n')
                    invariant
                        k <= line@.len(),
                        head_len(line@) == head_len(line@.subrange(0, k as int)),
                    decreases k,
                {
                    assert(line@.subrange(0, k as int).drop_last() =~= line@.subrange(0, k - 1));
                    k -= 1;
                }
                proof {
                    if k > 0 {
                        assert(line@.subrange(0, k as int).last() == line@[k - 1]);
                    }
                }
                let name = vstd::slice::slice_subrange(line, 0, k);
                assert(name@ =~= start_name(line@));
                match Role::from_chars(name) {
                    Some(r) => {
                        self.role = Some(r);
                        self.buffer = Vec::new();
                        Ok(())
                    },
                    None => Err(TranscriptError::InvalidStart(string_of(name))),
                }
            },
            Some(current) => match line_marker(line) {
                Some(r) => {
                    self.close_block(current);
                    self.role = Some(r);
                    self.buffer = Vec::new();
                    Ok(())
                },
                None => {
                    self.buffer.extend_from_slice(line);
                    assert(self.buffer@ =~= old(self).buffer@ + line@);
                    Ok(())
                },
            },
        }
    }

    /// Reads one line, with its line feed if it has one.
    pub fn feed(&mut self, line: &str) -> (r: Result<(), TranscriptError>)
        ensures
            match feed_line(old(self).progress(), line@) {
                Some(p) => r is Ok && final(self).progress() == p,
                None => final(self).progress() == old(self).progress() && (r matches Err(
                    TranscriptError::InvalidStart(name),
                ) && name@ == start_name(line@)),
            },
    {
        let cs = chars_of(line);
        self.feed_chars(cs.as_slice())
    }

    /// The messages read, once the input has ended.
    pub fn finish(self) -> (r: Vec<Message>)
        ensures
            views(r@) == close(self.progress()),
    {
        let mut d = self;
        match d.role {
            None => {},
            Some(current) => d.close_block(current),
        }
        d.done
    }
}

/// Reads a whole transcript. An empty text holds no messages; a text whose
/// first line names no role is refused.
pub fn decode(text: &str) -> (r: Result<Vec<Message>, TranscriptError>)
    ensures
        match decoded(text@) {
            Some(ms) => r is Ok && views(r->Ok_0@) == ms,
            None => r matches Err(TranscriptError::InvalidStart(name)) && name@ == start_name(
                split_lines(text@)[0],
            ),
        },
{
    let cs = chars_of(text);
    let mut d = Decoder::new();
    let mut start: usize = 0;
    let mut i: usize = 0;
    assert(cs@.subrange(0, 0) =~= Seq::<char>::empty());
    while i < cs.len()
        invariant
            start <= i <= cs@.len(),
            cs@ == text@,
            start == 0 || cs@[start - 1] == '\n',
            forall|j: int| start <= j < i ==> cs@[j] != '\n',
            feed_lines(fresh(), split_lines(cs@.subrange(0, start as int))) == Some(d.progress()),
            start == 0 ==> d.progress() == fresh(),
        decreases cs@.len() - i,
    {
        if cs[i] == '\n' {
            let line = vstd::slice::slice_subrange(cs.as_slice(), start, i + 1);
            let ghost pre = cs@.subrange(0, start as int);
            let ghost through = cs@.subrange(0, i + 1);
            proof {
                assert(through =~= pre + line@);
                lemma_split_lines_concat(pre, line@);
                assert(split_lines(line@) =~= seq![line@]) by {
                    lemma_split_lines_concat(Seq::empty(), line@);
                    lemma_split_push(line@);
                }
                assert(split_lines(through) =~= split_lines(pre).push(line@));
                assert(split_lines(pre).push(line@).drop_last() =~= split_lines(pre));
            }
            match d.feed_chars(line) {
                Ok(()) => {},
                Err(e) => {
                    proof { lemma_refused(cs@, start as int, i + 1); }
                    return Err(e);
                },
            }
            start = i + 1;
        }
        i += 1;
    }
    if start < cs.len() {
        let line = vstd::slice::slice_subrange(cs.as_slice(), start, cs.len());
        let ghost pre = cs@.subrange(0, start as int);
        proof {
            assert(cs@ =~= pre + line@);
            lemma_split_lines_concat(pre, line@);
            lemma_split_push(line@);
            assert(split_lines(cs@) =~= split_lines(pre).push(line@));
            assert(split_lines(pre).push(line@).drop_last() =~= split_lines(pre));
        }
        match d.feed_chars(line) {
            Ok(()) => {},
            Err(e) => {
                proof { lemma_refused(cs@, start as int, cs@.len() as int); }
                return Err(e);
            },
        }
    } else {
        assert(cs@.subrange(0, start as int) =~= cs@);
    }
    Ok(d.finish())
}

/// A piece without inner line feeds is one line.
proof fn lemma_split_push(line: Seq<char>)
    requires
        line.len() > 0,
        forall|j: int| 0 <= j < line.len() - 1 ==> line[j] != '\n',
    ensures
        split_lines(line) == seq![line],
    decreases line.len(),
{
    if line.len() == 1 {
        assert(line.drop_last() =~= Seq::<char>::empty());
        assert(split_lines(line.drop_last()) =~= Seq::<Seq<char>>::empty());
        assert(seq![line.last()] =~= line);
        assert(split_lines(line) =~= seq![line]);
    } else {
        let l1 = line.drop_last();
        lemma_split_push(l1);
        assert(line[line.len() - 2] != '\n');
        assert(l1.push(line.last()) =~= line);
        assert(split_lines(line) =~= seq![line]);
    }
}

/// When the line `s[start..end]` is refused, so is the whole text, and that
/// line is its first.
proof fn lemma_refused(s: Seq<char>, start: int, end: int)
    requires
        0 <= start < end <= s.len(),
        start == 0 || s[start - 1] == '\n',
        end == s.len() || s[end - 1] == '\n',
        forall|j: int| start <= j < end - 1 ==> s[j] != '\n',
        feed_lines(fresh(), split_lines(s.subrange(0, start))) is Some,
        feed_line(
            feed_lines(fresh(), split_lines(s.subrange(0, start)))->Some_0,
            s.subrange(start, end),
        ) is None,
    ensures
        decoded(s) is None,
        split_lines(s)[0] == s.subrange(start, end),
{
    let pre = s.subrange(0, start);
    let line = s.subrange(start, end);
    let through = s.subrange(0, end);
    let rest = s.subrange(end, s.len() as int);
    assert(through =~= pre + line);
    assert(s =~= through + rest);
    lemma_split_push(line);
    lemma_split_lines_concat(pre, line);
    if end == s.len() {
        assert(rest =~= Seq::<char>::empty());
        assert(split_lines(rest) =~= Seq::<Seq<char>>::empty());
        assert(split_lines(through) + split_lines(rest) =~= split_lines(through));
    } else {
        lemma_split_lines_concat(through, rest);
    }
    assert(split_lines(through) =~= split_lines(pre).push(line));
    assert(split_lines(pre).push(line).drop_last() =~= split_lines(pre));
    lemma_feed_lines_concat(fresh(), split_lines(through), split_lines(rest));
    if start > 0 {
        lemma_split_lines_nonempty(pre);
        lemma_feed_lines_started(fresh(), split_lines(pre));
    }
    assert(pre.len() == 0);
    assert(split_lines(pre) =~= Seq::<Seq<char>>::empty());
}

/// The lines of a sequence of lines, put back together.
pub open spec fn joined(lines: Seq<Seq<char>>) -> Seq<char>
    decreases lines.len(),
{
    if lines.len() == 0 {
        Seq::empty()
    } else {
        joined(lines.drop_last()) + lines.last()
    }
}

/// Content that a block carries unchanged: no trailing white space, no
/// carriage return before a line feed, and no line that begins with a marker.
pub open spec fn clean(c: Seq<char>) -> bool {
    &&& kept_len(c) == c.len()
    &&& forall|i: int| 0 <= i < c.len() - 1 ==> !(#[trigger] c[i] == '\r' && c[i + 1] == '\n')
    &&& forall|k: int| 0 <= k < split_lines(c).len() ==> marker_role(#[trigger] split_lines(c)[k]) is None
}

/// The text a reader gathers for a block's content: its lines and the blank line.
pub open spec fn gathered(c: Seq<char>) -> Seq<char> {
    body_text(c).push('\n')
}

proof fn lemma_joined_split(s: Seq<char>)
    ensures
        joined(split_lines(s)) == s,
    decreases s.len(),
{
    if s.len() > 0 {
        let s1 = s.drop_last();
        lemma_joined_split(s1);
        lemma_split_lines_nonempty(s1);
        let rest = split_lines(s1);
        if s.len() == 1 || s[s.len() - 2] == '\n' {
            assert(rest.push(seq![s.last()]).drop_last() =~= rest);
            assert(s1 + seq![s.last()] =~= s);
        } else {
            let u = rest.update(rest.len() - 1, rest.last().push(s.last()));
            assert(u.drop_last() =~= rest.drop_last());
            assert(joined(rest) == joined(rest.drop_last()) + rest.last());
            assert(joined(u) =~= s);
        }
    }
}

/// Lines that begin with no marker only add to the open block.
proof fn lemma_feed_plain(p: Progress, lines: Seq<Seq<char>>)
    requires
        p.role is Some,
        forall|k: int| 0 <= k < lines.len() ==> marker_role(#[trigger] lines[k]) is None,
    ensures
        feed_lines(p, lines) == Some(
            Progress { role: p.role, buffer: p.buffer + joined(lines), done: p.done },
        ),
    decreases lines.len(),
{
    if lines.len() == 0 {
        assert(p.buffer + joined(lines) =~= p.buffer);
    } else {
        let l1 = lines.drop_last();
        assert forall|k: int| 0 <= k < l1.len() implies marker_role(#[trigger] l1[k]) is None by {
            assert(l1[k] == lines[k]);
        }
        lemma_feed_plain(p, l1);
        assert(marker_role(lines[lines.len() - 1]) is None);
        assert(p.buffer + joined(l1) + lines.last() =~= p.buffer + joined(lines));
    }
}

proof fn lemma_marker_text(r: Role)
    ensures
        role_marker(r) == match r {
            Role::System => seq!['S', 'Y', 'S', 'T', 'E', 'M', ':'],
            Role::User => seq!['U', 'S', 'E', 'R', ':'],
            Role::Assistant => seq!['A', 'S', 'S', 'I', 'S', 'T', 'A', 'N', 'T', ':'],
        },
{
    match r {
        Role::System => assert(role_marker(r) =~= seq!['S', 'Y', 'S', 'T', 'E', 'M', ':']),
        Role::User => assert(role_marker(r) =~= seq!['U', 'S', 'E', 'R', ':']),
        Role::Assistant => assert(role_marker(r) =~= seq!['A', 'S', 'S', 'I', 'S', 'T', 'A', 'N', 'T', ':']),
    }
}

/// A line feed at the end cannot make a line begin with a marker.
proof fn lemma_marker_feed(l: Seq<char>)
    requires
        marker_role(l) is None,
    ensures
        marker_role(l.push('\n')) is None,
{
    lemma_marker_text(Role::System);
    lemma_marker_text(Role::User);
    lemma_marker_text(Role::Assistant);
    assert forall|r: Role| !marked_by(l.push('\n'), r) by {
        let m = role_marker(r);
        if marked_by(l.push('\n'), r) {
            if m.len() > l.len() {
                assert(m[l.len() as int] == l.push('\n')[l.len() as int]);
            } else {
                assert forall|i: int| 0 <= i < m.len() implies m[i] == l[i] by {
                    assert(l.push('\n')[i] == l[i]);
                }
                assert(marked_by(l, r));
                lemma_marker_role(l, r);
            }
        }
    }
}

/// A marker line names its role, both as a transcript's first line and later.
proof fn lemma_marker_line(r: Role)
    ensures
        marker_role(role_marker(r).push('\n')) == Some(r),
        role_from_name(start_name(role_marker(r).push('\n'))) == Some(r),
        split_lines(role_marker(r).push('\n')) == seq![role_marker(r).push('\n')],
{
    let line = role_marker(r).push('\n');
    lemma_marker_text(r);
    assert(role_marker(r).is_prefix_of(line));
    lemma_marker_role(line, r);
    lemma_split_push(line);
    let m = role_marker(r);
    assert(line.drop_last() =~= m);
    assert(m.drop_last() =~= m.subrange(0, m.len() - 1));
    assert(head_len(line) == head_len(m));
    assert(head_len(m) == head_len(m.drop_last()));
    assert(head_len(m.drop_last()) == m.len() - 1);
    assert(start_name(line) =~= m.drop_last());
    lemma_role_names(r);
}

/// Each role's upper-case name reads back as that role.
proof fn lemma_role_names(r: Role)
    ensures
        role_from_name(role_marker(r).drop_last()) == Some(r),
{
    lemma_marker_text(r);
    let n = role_marker(r).drop_last();
    match r {
        Role::System => {
            assert(crate::text::ascii_lower(n) =~= crate::role_token(Role::System));
        },
        Role::User => {
            assert(crate::text::ascii_lower(n) =~= crate::role_token(Role::User));
            assert(crate::text::ascii_lower(n) != crate::role_token(Role::System));
        },
        Role::Assistant => {
            assert(crate::text::ascii_lower(n) =~= crate::role_token(Role::Assistant));
            assert(crate::text::ascii_lower(n) != crate::role_token(Role::System));
            assert(crate::text::ascii_lower(n) != crate::role_token(Role::User));
        },
    }
}

proof fn lemma_strip_cr_plain(c: Seq<char>, i: nat)
    requires
        i <= c.len(),
        forall|j: int| 0 <= j < c.len() - 1 ==> !(#[trigger] c[j] == '\r' && c[j + 1] == '\n'),
    ensures
        strip_cr(c, i) == c.subrange(0, i as int),
    decreases i,
{
    if i > 0 {
        lemma_strip_cr_plain(c, (i - 1) as nat);
        assert(c.subrange(0, i - 1).push(c[i - 1]) =~= c.subrange(0, i as int));
    } else {
        assert(c.subrange(0, 0) =~= Seq::<char>::empty());
    }
}

/// What a reader gathers for clean content: no marker line, and cutting the
/// trailing white space gives the content back.
proof fn lemma_gathered(c: Seq<char>)
    requires
        clean(c),
    ensures
        forall|k: int| 0 <= k < split_lines(gathered(c)).len() ==> marker_role(
            #[trigger] split_lines(gathered(c))[k],
        ) is None,
        trim_end(gathered(c)) == c,
        gathered(c).last() == '\n',
{
    let nl = seq!['\n'];
    lemma_strip_cr_plain(c, c.len());
    assert(c.subrange(0, c.len() as int) =~= c);
    lemma_marker_text(Role::System);
    lemma_marker_text(Role::User);
    lemma_marker_text(Role::Assistant);
    assert(!marked_by(nl, Role::System) && !marked_by(nl, Role::User) && !marked_by(nl, Role::Assistant));
    assert(kept_len(nl) == 0) by {
        assert(nl.drop_last() =~= Seq::<char>::empty());
        assert(is_space(nl.last()));
        assert(kept_len(Seq::<char>::empty()) == 0);
    }
    if c.len() == 0 {
        assert(gathered(c) =~= nl);
        lemma_split_push(nl);
        assert(trim_end(nl) =~= c);
    } else {
        crate::text::lemma_kept_len_bound(c);
        assert(!is_space(c.last()));
        let c1 = c.push('\n');
        assert(gathered(c) =~= c1 + nl);
        lemma_split_lines_concat(c1, nl);
        lemma_split_push(nl);
        lemma_split_lines_nonempty(c);
        assert(c1.drop_last() =~= c);
        let lc = split_lines(c);
        assert(split_lines(c1) == lc.update(lc.len() - 1, lc.last().push('\n')));
        assert forall|k: int| 0 <= k < split_lines(gathered(c)).len() implies marker_role(
            #[trigger] split_lines(gathered(c))[k],
        ) is None by {
            if k == lc.len() - 1 {
                lemma_marker_feed(lc.last());
            } else if k < lc.len() - 1 {
                assert(split_lines(gathered(c))[k] == lc[k]);
            }
        }
        crate::text::lemma_kept_len_concat(c, seq!['\n', '\n']);
        assert(kept_len(seq!['\n', '\n']) == 0) by {
            assert(seq!['\n', '\n'].drop_last() =~= nl);
        }
        assert(gathered(c) =~= c + seq!['\n', '\n']);
        assert(trim_end(gathered(c)) =~= c);
    }
}

/// A block's lines: its marker line, then what the reader gathers.
proof fn lemma_block_lines(m: (Role, Seq<char>))
    ensures
        block(m) == role_marker(m.0).push('\n') + gathered(m.1),
        split_lines(block(m)) == seq![role_marker(m.0).push('\n')] + split_lines(gathered(m.1)),
        block(m).last() == '\n',
{
    lemma_marker_line(m.0);
    lemma_split_lines_concat(role_marker(m.0).push('\n'), gathered(m.1));
}

/// After the blocks of `ms[..k]`, the reader is in the last of them, holding
/// its gathered text, with the ones before it closed.
proof fn lemma_read_blocks(ms: Seq<(Role, Seq<char>)>, k: int)
    requires
        1 <= k <= ms.len(),
        forall|i: int| 0 <= i < ms.len() ==> clean(#[trigger] ms[i].1),
    ensures
        feed_lines(fresh(), split_lines(encoding(ms.subrange(0, k)))) == Some(
            Progress {
                role: Some(ms[k - 1].0),
                buffer: gathered(ms[k - 1].1),
                done: ms.subrange(0, k - 1),
            },
        ),
        encoding(ms.subrange(0, k)).last() == '\n',
    decreases k,
{
    let m = ms[k - 1];
    let sub = ms.subrange(0, k);
    assert(sub.drop_last() =~= ms.subrange(0, k - 1));
    assert(sub.last() == m);
    lemma_block_lines(m);
    lemma_gathered(m.1);
    lemma_marker_line(m.0);
    let ml = role_marker(m.0).push('\n');
    let gl = split_lines(gathered(m.1));
    lemma_joined_split(gathered(m.1));
    if k == 1 {
        assert(ms.subrange(0, 0) =~= Seq::<(Role, Seq<char>)>::empty());
        assert(encoding(sub) =~= block(m));
        assert(seq![ml].drop_last() =~= Seq::<Seq<char>>::empty());
        let opened = Progress { role: Some(m.0), buffer: Seq::empty(), done: Seq::empty() };
        assert(feed_lines(fresh(), seq![ml]) == Some(opened));
        lemma_feed_lines_concat(fresh(), seq![ml], gl);
        lemma_feed_plain(opened, gl);
        assert(Seq::<char>::empty() + joined(gl) =~= gathered(m.1));
        assert(opened.done =~= ms.subrange(0, k - 1));
    } else {
        lemma_read_blocks(ms, k - 1);
        let prev = ms.subrange(0, k - 1);
        assert(encoding(sub) == encoding(prev) + block(m));
        lemma_split_lines_concat(encoding(prev), block(m));
        let q = Progress {
            role: Some(ms[k - 2].0),
            buffer: gathered(ms[k - 2].1),
            done: ms.subrange(0, k - 2),
        };
        lemma_gathered(ms[k - 2].1);
        assert(seq![ml].drop_last() =~= Seq::<Seq<char>>::empty());
        let opened = Progress { role: Some(m.0), buffer: Seq::empty(), done: ms.subrange(0, k - 1) };
        assert(ms.subrange(0, k - 2).push((ms[k - 2].0, ms[k - 2].1)) =~= ms.subrange(0, k - 1));
        assert(feed_lines(q, Seq::<Seq<char>>::empty()) == Some(q));
        assert(trim_end(q.buffer) == ms[k - 2].1);
        assert(feed_line(q, ml) == Some(opened));
        assert(feed_lines(q, seq![ml]) == Some(opened));
        lemma_feed_lines_concat(q, seq![ml], gl);
        lemma_feed_plain(opened, gl);
        assert(Seq::<char>::empty() + joined(gl) =~= gathered(m.1));
        assert(split_lines(encoding(sub)) =~= split_lines(encoding(prev)) + (seq![ml] + gl));
        lemma_feed_lines_concat(fresh(), split_lines(encoding(prev)), seq![ml] + gl);
    }
}

/// Reading back the transcript of a non-empty sequence of messages gives the
/// same messages, provided each content is clean: it has no trailing white
/// space, no carriage return before a line feed, and no line that begins with
/// a role marker.
pub proof fn lemma_round_trip(ms: Seq<(Role, Seq<char>)>)
    requires
        ms.len() > 0,
        forall|i: int| 0 <= i < ms.len() ==> clean(#[trigger] ms[i].1),
    ensures
        decoded(encoding(ms)) == Some(ms),
{
    lemma_read_blocks(ms, ms.len() as int);
    assert(ms.subrange(0, ms.len() as int) =~= ms);
    let last = ms[ms.len() - 1];
    lemma_gathered(last.1);
    assert(ms.subrange(0, ms.len() - 1).push((last.0, last.1)) =~= ms);
}

/// The transcript of no messages is empty, and an empty transcript holds no
/// messages.
pub proof fn lemma_empty_transcript()
    ensures
        encoding(Seq::empty()) == Seq::<char>::empty(),
        decoded(Seq::empty()) == Some(Seq::<(Role, Seq<char>)>::empty()),
{
}

/// `s` cut at each `|`, as `str::split('|')` gives it.
pub open spec fn pieces(s: Seq<char>) -> Seq<Seq<char>>
    decreases s.len(),
{
    if s.len() == 0 {
        seq![Seq::empty()]
    } else {
        let rest = pieces(s.drop_last());
        if s.last() == '|' {
            rest.push(Seq::empty())
        } else {
            rest.update(rest.len() - 1, rest.last().push(s.last()))
        }
    }
}

proof fn lemma_pieces_len(s: Seq<char>)
    ensures
        pieces(s).len() >= 1,
    decreases s.len(),
{
    if s.len() > 0 {
        lemma_pieces_len(s.drop_last());
    }
}

/// Text after the last `|` only extends the last piece.
proof fn lemma_pieces_tail(a: Seq<char>, b: Seq<char>)
    requires
        forall|i: int| 0 <= i < b.len() ==> b[i] != '|',
    ensures
        pieces(a.push('|') + b) == pieces(a).push(b),
    decreases b.len(),
{
    let a1 = a.push('|');
    lemma_pieces_len(a);
    if b.len() == 0 {
        assert(a1 + b =~= a1);
        assert(a1.drop_last() =~= a);
        assert(b =~= Seq::<char>::empty());
        assert(a1.last() == '|');
    } else {
        let b1 = b.drop_last();
        lemma_pieces_tail(a, b1);
        assert((a1 + b).drop_last() =~= a1 + b1);
        assert((a1 + b).last() == b[b.len() - 1]);
        assert(b[b.len() - 1] != '|');
        assert(pieces(a1 + b) =~= pieces(a).push(b1).update(pieces(a).len() as int, b1.push(b.last())));
        assert(b1.push(b.last()) =~= b);
        assert(pieces(a1 + b) =~= pieces(a).push(b));
    }
}

proof fn lemma_pieces_plain(b: Seq<char>)
    requires
        forall|i: int| 0 <= i < b.len() ==> b[i] != '|',
    ensures
        pieces(b) == seq![b],
    decreases b.len(),
{
    if b.len() == 0 {
        assert(b =~= Seq::<char>::empty());
    } else {
        let b1 = b.drop_last();
        lemma_pieces_plain(b1);
        assert(b[b.len() - 1] != '|');
        assert(b1.push(b.last()) =~= b);
        assert(pieces(b) =~= seq![b]);
    }
}

/// An alternation of parts without `|` cuts back into those parts.
proof fn lemma_pieces_alternation(parts: Seq<Seq<char>>)
    requires
        parts.len() > 0,
        forall|k: int, i: int| 0 <= k < parts.len() && 0 <= i < parts[k].len() ==> #[trigger] parts[k][i] != '|',
    ensures
        pieces(alternation(parts)) == parts,
    decreases parts.len(),
{
    if parts.len() == 1 {
        lemma_pieces_plain(parts[0]);
        assert(seq![parts[0]] =~= parts);
    } else {
        let front = parts.drop_last();
        assert forall|k: int, i: int| 0 <= k < front.len() && 0 <= i < front[k].len() implies #[trigger] front[k][i] != '|' by {
            assert(front[k] == parts[k]);
        }
        lemma_pieces_alternation(front);
        assert forall|i: int| 0 <= i < parts.last().len() implies parts.last()[i] != '|' by {
            assert(parts[parts.len() - 1][i] != '|');
        }
        lemma_pieces_tail(alternation(front), parts.last());
        assert(front.push(parts.last()) =~= parts);
    }
}

/// The marker pattern cuts at `|` into exactly the markers of all roles, each
/// being its role's name in upper case followed by a colon.
pub proof fn lemma_pattern_markers()
    ensures
        pieces(alternation(markers(crate::all_roles()))) == markers(crate::all_roles()),
        forall|m: Seq<char>|
            pieces(alternation(markers(crate::all_roles()))).contains(m) <==> exists|r: Role|
                m == #[trigger] crate::text::ascii_upper(crate::role_name(r)).push(':'),
{
    let ms = markers(crate::all_roles());
    lemma_marker_text(Role::System);
    lemma_marker_text(Role::User);
    lemma_marker_text(Role::Assistant);
    assert(ms[0] == role_marker(Role::System));
    assert(ms[1] == role_marker(Role::User));
    assert(ms[2] == role_marker(Role::Assistant));
    assert forall|k: int, i: int| 0 <= k < ms.len() && 0 <= i < ms[k].len() implies #[trigger] ms[k][i] != '|' by {
        assert(k == 0 || k == 1 || k == 2);
    }
    lemma_pieces_alternation(ms);
    assert forall|m: Seq<char>| ms.contains(m) <==> exists|r: Role|
        m == #[trigger] crate::text::ascii_upper(crate::role_name(r)).push(':') by {
        if ms.contains(m) {
            let k = choose|k: int| 0 <= k < ms.len() && ms[k] == m;
            assert(k == 0 || k == 1 || k == 2);
            if k == 0 {
                assert(m == crate::text::ascii_upper(crate::role_name(Role::System)).push(':'));
            } else if k == 1 {
                assert(m == crate::text::ascii_upper(crate::role_name(Role::User)).push(':'));
            } else {
                assert(m == crate::text::ascii_upper(crate::role_name(Role::Assistant)).push(':'));
            }
        }
        if exists|r: Role| m == #[trigger] crate::text::ascii_upper(crate::role_name(r)).push(':') {
            let r = choose|r: Role| m == #[trigger] crate::text::ascii_upper(crate::role_name(r)).push(':');
            match r {
                Role::System => assert(ms[0] == m),
                Role::User => assert(ms[1] == m),
                Role::Assistant => assert(ms[2] == m),
            }
        }
    }
}

} // verus!
