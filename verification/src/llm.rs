//! Asking a language model for a commit message: the prompt that goes out,
//! the draft that grows from the reply, and the banner that frames it on the
//! terminal.

use vstd::prelude::*;
use vstd::string::*;
use vstd::utf8::encode_utf8;
use crate::changes::{is_sentinel, sentinel, ChangeScope};
use crate::stream::StreamError;
use crate::text::{to_chars, trim, trim_end, trimmed, trimmed_end, views};

verus! {

/// The instructions that are sent where the configuration gives none.
pub const DEFAULT_PROMPT: &'static str =
    "\nYou are an AI commit message assistant.\n\nPlease generate a commit message with the following format:\n1. Title (one short sentence, 50-72 characters max).\n2. A clear bullet-point list of changes (start each line with \"- \").\n3. Each line, including bullets, should be under 100 characters.\n4. Keep it concise, consistent, and professional.\n\nExample:\n\nImprove error handling in user authentication\n\n- Add detailed error messages for login failures\n- Handle timeout errors gracefully\n- Refactor error propagation logic for clarity\n";

/// What the user's message starts with, before the summary of changes.
pub const CHANGES_INTRO: &'static str = "Here are my current Git changes:\n";

/// Where the chat request is sent.
pub const CHAT_ENDPOINT: &'static str = "https://api.deepseek.com/chat/completions";

/// The model that is asked.
pub const CHAT_MODEL: &'static str = "deepseek-chat";

/// The value of the `Authorization` header for an API key.
pub fn authorization(api_key: &str) -> (r: String)
    ensures
        r@ == "Bearer "@ + api_key@,
{
    let mut value = String::from_str("Bearer ");
    value.append(api_key);
    value
}

/// Who speaks in a chat message.
#[derive(Clone, Copy, Debug, PartialEq, Eq, Structural)]
pub enum Role {
    System,
    User,
}

impl Role {
    /// The name of the role as the chat endpoint spells it.
    pub fn as_str(self) -> (r: &'static str)
        ensures
            r@ == match self {
                Role::System => "system"@,
                Role::User => "user"@,
            },
    {
        match self {
            Role::System => "system",
            Role::User => "user",
        }
    }
}

/// One message of a chat.
#[derive(Clone, Debug, PartialEq, Eq)]
pub struct ChatMessage {
    pub role: Role,
    pub content: String,
}

/// The instructions in force: those of the configuration, or the built-in
/// ones.
pub open spec fn spec_instructions(prompt_opt: Option<String>) -> Seq<char> {
    match prompt_opt {
        Some(prompt) => prompt@,
        None => DEFAULT_PROMPT@,
    }
}

/// A summary that says there is nothing to describe, in either scope.
pub open spec fn is_empty_summary(changes: Seq<char>) -> bool {
    changes == sentinel(ChangeScope::Staged) || changes == sentinel(ChangeScope::All)
}

/// The changes that a prompt describes: the summary as it is, or nothing
/// where the summary is a sentinel, which stands for "no changes" and is no
/// description of one.
pub open spec fn described_changes(changes: Seq<char>) -> Seq<char> {
    if is_empty_summary(changes) {
        Seq::empty()
    } else {
        changes
    }
}

/// The two messages of a request: the instructions as the system, then
/// the changes, behind a line that introduces them, as the user. A summary
/// that is a sentinel counts as no changes at all.
pub fn build_prompt_messages(changes: &str, prompt_opt: Option<String>) -> (r: Vec<ChatMessage>)
    ensures
        r@.len() == 2,
        r@[0].role == Role::System,
        r@[0].content@ == spec_instructions(prompt_opt),
        r@[1].role == Role::User,
        r@[1].content@ == CHANGES_INTRO@ + described_changes(changes@),
{
    let prompt = match prompt_opt {
        Some(config_prompt) => config_prompt,
        None => String::from_str(DEFAULT_PROMPT),
    };
    let mut content = String::from_str(CHANGES_INTRO);
    if is_sentinel(changes, ChangeScope::Staged) || is_sentinel(changes, ChangeScope::All) {
        assert(content@ + Seq::<char>::empty() =~= content@);
    } else {
        content.append(changes);
    }
    let mut messages: Vec<ChatMessage> = Vec::new();
    messages.push(ChatMessage { role: Role::System, content: prompt });
    messages.push(ChatMessage { role: Role::User, content });
    messages
}

/// The messages to send for a summary of changes, or `None` where the
/// summary is a sentinel: with no changes there is nothing to write a
/// commit message about, and nothing is sent.
pub fn prompt_for_changes(changes: &str, prompt_opt: Option<String>) -> (r: Option<
    Vec<ChatMessage>,
>)
    ensures
        r.is_none() == is_empty_summary(changes@),
        match r {
            Some(messages) => {
                &&& messages@.len() == 2
                &&& messages@[0].role == Role::System
                &&& messages@[0].content@ == spec_instructions(prompt_opt)
                &&& messages@[1].role == Role::User
                &&& messages@[1].content@ == CHANGES_INTRO@ + changes@
            },
            None => true,
        },
{
    if is_sentinel(changes, ChangeScope::Staged) || is_sentinel(changes, ChangeScope::All) {
        None
    } else {
        Some(build_prompt_messages(changes, prompt_opt))
    }
}

/// The character that ends a line of the reply.
pub open spec fn line_end() -> char {
    '\n'
}

/// The line in progress once `content` has arrived on top of `line`: what
/// follows the last line end.
pub open spec fn line_after(line: Seq<char>, content: Seq<char>) -> Seq<char>
    decreases content.len(),
{
    if content.len() == 0 {
        line
    } else if content.last() == line_end() {
        Seq::empty()
    } else {
        line_after(line, content.drop_last()).push(content.last())
    }
}

/// The lines that `content` completes on top of `line`, each with its line
/// end.
pub open spec fn completed_after(line: Seq<char>, content: Seq<char>) -> Seq<Seq<char>>
    decreases content.len(),
{
    if content.len() == 0 {
        Seq::empty()
    } else if content.last() == line_end() {
        completed_after(line, content.drop_last()).push(
            line_after(line, content.drop_last()).push(line_end()),
        )
    } else {
        completed_after(line, content.drop_last())
    }
}

/// A list of texts, one after the other.
pub open spec fn concat(texts: Seq<Seq<char>>) -> Seq<char>
    decreases texts.len(),
{
    if texts.len() == 0 {
        Seq::empty()
    } else {
        concat(texts.drop_last()) + texts.last()
    }
}

/// A line of the reply as the terminal shows it: behind a bar, without the
/// white space at its end.
pub open spec fn shown(line: Seq<char>) -> Seq<char> {
    "| "@ + trim_end(line)
}

/// A list of lines as the terminal shows them.
pub open spec fn all_shown(lines: Seq<Seq<char>>) -> Seq<Seq<char>> {
    Seq::new(lines.len(), |i: int| shown(lines[i]))
}

/// The commit message as it grows from the text fragments of a reply.
pub struct CommitDraft {
    full_message: String,
    current_line: String,
}

/// The mathematical content of a [`CommitDraft`].
pub struct DraftView {
    /// The lines that are complete.
    pub full: Seq<char>,
    /// The line in progress.
    pub line: Seq<char>,
}

impl View for CommitDraft {
    type V = DraftView;

    closed spec fn view(&self) -> DraftView {
        DraftView { full: self.full_message@, line: self.current_line@ }
    }
}

impl CommitDraft {
    /// An empty draft.
    pub fn new() -> (r: CommitDraft)
        ensures
            r@.full == Seq::<char>::empty(),
            r@.line == Seq::<char>::empty(),
    {
        CommitDraft { full_message: String::new(), current_line: String::new() }
    }

    /// Takes the next text fragment. Returns the lines that it completes,
    /// as the terminal shows them.
    pub fn push_delta(&mut self, content: &str) -> (printed: Vec<String>)
        ensures
            final(self)@.line == line_after(old(self)@.line, content@),
            final(self)@.full == old(self)@.full + concat(
                completed_after(old(self)@.line, content@),
            ),
            views(printed@) == all_shown(completed_after(old(self)@.line, content@)),
            final(self)@.full + final(self)@.line == old(self)@.full + old(self)@.line + content@,
    {
        proof {
            law_draft_keeps_everything(old(self)@.line, content@);
            let done = concat(completed_after(old(self)@.line, content@));
            let rest = line_after(old(self)@.line, content@);
            assert(old(self)@.full + done + rest =~= old(self)@.full + (done + rest));
            assert(old(self)@.full + (old(self)@.line + content@) =~= old(self)@.full + old(
                self,
            )@.line + content@);
        }
        let chars = to_chars(content);
        let mut printed: Vec<String> = Vec::new();
        let mut i: usize = 0;
        assert(views(printed@) =~= all_shown(Seq::<Seq<char>>::empty()));
        assert(self@.full + Seq::<char>::empty() =~= self@.full);
        while i < chars.len()
            invariant
                i <= chars.len(),
                chars@ == content@,
                self@.line == line_after(old(self)@.line, chars@.take(i as int)),
                self@.full == old(self)@.full + concat(
                    completed_after(old(self)@.line, chars@.take(i as int)),
                ),
                views(printed@) == all_shown(
                    completed_after(old(self)@.line, chars@.take(i as int)),
                ),
            decreases chars.len() - i,
        {
            assert(chars@.take(i + 1).drop_last() =~= chars@.take(i as int));
            let ghost done = completed_after(old(self)@.line, chars@.take(i as int));
            let ghost before = printed@;
            let c = chars[i];
            self.current_line.push(c);
            if c == '\n' {
                let mut line = String::from_str("| ");
                line.append(trimmed_end(self.current_line.as_str()).as_str());
                printed.push(line);
                self.full_message.append(self.current_line.as_str());
                proof {
                    let whole = self.current_line@;
                    assert(done.push(whole).drop_last() =~= done);
                    assert(printed@ == before.push(line));
                    assert(line@ == shown(whole));
                    assert(views(before).len() == before.len());
                    assert(all_shown(done).len() == done.len());
                    assert(all_shown(done.push(whole)).len() == done.len() + 1);
                    assert forall|k: int| 0 <= k < printed@.len() implies views(printed@)[k]
                        == all_shown(done.push(whole))[k] by {
                        if k < before.len() {
                            assert(views(before)[k] == all_shown(done)[k]);
                        }
                    }
                    assert(views(printed@) =~= all_shown(done.push(whole)));
                    assert(old(self)@.full + concat(done) + whole =~= old(self)@.full + (concat(
                        done,
                    ) + whole));
                }
                self.current_line = String::new();
            }
            i = i + 1;
        }
        assert(chars@.take(i as int) =~= chars@);
        printed
    }

    /// The line in progress as the terminal shows it, if it holds more
    /// than white space. To be shown when the reply has ended.
    pub fn last_line(&self) -> (r: Option<String>)
        ensures
            match r {
                Some(line) => trim(self@.line).len() > 0 && line@ == shown(self@.line),
                None => trim(self@.line).len() == 0,
            },
    {
        if trimmed(self.current_line.as_str()).as_str().unicode_len() > 0 {
            let mut line = String::from_str("| ");
            line.append(trimmed_end(self.current_line.as_str()).as_str());
            Some(line)
        } else {
            None
        }
    }

    /// Everything received so far, as it came.
    pub fn text(&self) -> (r: String)
        ensures
            r@ == self@.full + self@.line,
    {
        let mut all = self.full_message.clone();
        all.append(self.current_line.as_str());
        all
    }

    /// The commit message: everything received, without the white space
    /// at either end.
    pub fn message(&self) -> (r: String)
        ensures
            r@ == trim(self@.full + self@.line),
    {
        trimmed(self.text().as_str())
    }
}

/// Whatever arrives is kept: the lines that a fragment completes and the
/// line then in progress are, put together, the line that was in progress
/// and the fragment.
pub proof fn law_draft_keeps_everything(line: Seq<char>, content: Seq<char>)
    ensures
        concat(completed_after(line, content)) + line_after(line, content) == line + content,
    decreases content.len(),
{
    if content.len() == 0 {
        assert(concat(completed_after(line, content)) + line =~= line + content);
    } else {
        let front = content.drop_last();
        law_draft_keeps_everything(line, front);
        let done = completed_after(line, front);
        let rest = line_after(line, front);
        assert(line + content =~= (line + front).push(content.last()));
        if content.last() == line_end() {
            assert(done.push(rest.push(line_end())).drop_last() =~= done);
            assert(concat(done) + rest.push(line_end()) + Seq::<char>::empty() =~= (concat(done)
                + rest).push(line_end()));
        } else {
            assert(concat(done) + rest.push(content.last()) =~= (concat(done) + rest).push(
                content.last(),
            ));
        }
    }
}

/// The message to commit once the reply has ended: the draft's message
/// where a commit was asked for and the reply came through, and none
/// otherwise. A reply that ended with an error is never committed.
pub fn commit_message(apply: bool, result: &Result<(), StreamError>, draft: &CommitDraft) -> (r:
    Option<String>)
    ensures
        r.is_some() == (apply && result.is_ok()),
        r.is_some() ==> r.unwrap()@ == trim(draft@.full + draft@.line),
{
    if !apply {
        return None;
    }
    match result {
        Ok(_) => Some(draft.message()),
        Err(_) => None,
    }
}

/// The line to show once the reply has ended: the line in progress, as
/// [`CommitDraft::last_line`] gives it, where the reply came through, and
/// none where it ended with an error.
pub fn closing_line(result: &Result<(), StreamError>, draft: &CommitDraft) -> (r: Option<String>)
    ensures
        r.is_some() == (result.is_ok() && trim(draft@.line).len() > 0),
        r.is_some() ==> r.unwrap()@ == shown(draft@.line),
{
    match result {
        Ok(_) => draft.last_line(),
        Err(_) => None,
    }
}

/// The narrowest and the widest a banner gets, and the room it leaves on
/// either side of a title that fits.
pub const BANNER_MIN_WIDTH: usize = 60;

pub const BANNER_MAX_WIDTH: usize = 100;

pub const BANNER_PADDING: usize = 4;

/// The width of the banner for a title of `len` bytes: the title and its
/// padding on both sides, but no less than the minimum and no more than the
/// maximum.
pub open spec fn banner_width(len: nat) -> nat {
    let raw = len + 2 * BANNER_PADDING;
    if raw < BANNER_MIN_WIDTH {
        BANNER_MIN_WIDTH as nat
    } else if raw > BANNER_MAX_WIDTH {
        BANNER_MAX_WIDTH as nat
    } else {
        raw as nat
    }
}

/// The blanks before the title: half of what the title leaves free,
/// rounded down; none where the title is wider than the banner.
pub open spec fn banner_left(len: nat) -> nat {
    if len <= banner_width(len) {
        ((banner_width(len) - len) / 2) as nat
    } else {
        0
    }
}

/// The blanks after the title: what is still free; none where the title
/// is wider than the banner.
pub open spec fn banner_right(len: nat) -> nat {
    if len <= banner_width(len) {
        (banner_width(len) - banner_left(len) - len) as nat
    } else {
        0
    }
}

/// `count` times the character `c`.
pub open spec fn repeated(c: char, count: nat) -> Seq<char> {
    Seq::new(count, |i: int| c)
}

/// The length of a text in bytes, which is how wide the banner takes it
/// to be.
pub open spec fn byte_len(text: Seq<char>) -> nat {
    encode_utf8(text).len()
}

/// The line of `=` above and below the title.
pub open spec fn banner_rule(title: Seq<char>) -> Seq<char> {
    repeated('=', banner_width(byte_len(title)))
}

/// The line that holds the title, centred.
pub open spec fn banner_title(title: Seq<char>) -> Seq<char> {
    repeated(' ', banner_left(byte_len(title))) + title + repeated(
        ' ',
        banner_right(byte_len(title)),
    )
}

/// A text of `count` times the character `c`.
pub fn repeat_char(c: char, count: usize) -> (r: String)
    ensures
        r@ == repeated(c, count as nat),
{
    let mut text = String::new();
    let mut i: usize = 0;
    assert(text@ =~= repeated(c, 0));
    while i < count
        invariant
            i <= count,
            text@ == repeated(c, i as nat),
        decreases count - i,
    {
        text.push(c);
        i = i + 1;
        assert(text@ =~= repeated(c, i as nat));
    }
    text
}

/// The three lines of a banner: a rule, the centred title, and the rule
/// again.
pub fn banner(title: &str) -> (r: Vec<String>)
    ensures
        r@.len() == 3,
        r@[0]@ == banner_rule(title@),
        r@[1]@ == banner_title(title@),
        r@[2]@ == banner_rule(title@),
{
    let len = title.as_bytes().len();
    assert(len == byte_len(title@));
    let total_width = if len < BANNER_MIN_WIDTH - 2 * BANNER_PADDING {
        BANNER_MIN_WIDTH
    } else if len > BANNER_MAX_WIDTH - 2 * BANNER_PADDING {
        BANNER_MAX_WIDTH
    } else {
        len + 2 * BANNER_PADDING
    };
    let (left, right) = if len <= total_width {
        let left = (total_width - len) / 2;
        (left, total_width - left - len)
    } else {
        (0, 0)
    };
    let mut middle = repeat_char(' ', left);
    middle.append(title);
    middle.append(repeat_char(' ', right).as_str());
    let mut lines: Vec<String> = Vec::new();
    lines.push(repeat_char('=', total_width));
    lines.push(middle);
    lines.push(repeat_char('=', total_width));
    lines
}

} // verus!
