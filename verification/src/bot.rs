use vstd::prelude::*;

use crate::text::{
    char_vecs_view, chars_of, escape_html, escaped_html, split_words, string_of, words,
};

verus! {

/// The bot's commands.
#[derive(Debug, Clone, Copy, PartialEq, Eq)]
pub enum BotCommand {
    Analyze,
    Voice,
}

/// A command word up to its first `@` (which introduces the bot's name).
pub open spec fn before_at(s: Seq<char>) -> Seq<char>
    decreases s.len(),
{
    if s.len() == 0 || s[0] == '@' {
        Seq::empty()
    } else {
        seq![s[0]] + before_at(s.skip(1))
    }
}

/// The command that a message starts with: its first word, without any
/// `@botname`, must be `/analyze` or `/voice`.
pub open spec fn spec_parse_command(text: Seq<char>) -> Option<BotCommand> {
    let w = words(text);
    if w.len() == 0 {
        None
    } else if before_at(w[0]) == "/analyze"@ {
        Some(BotCommand::Analyze)
    } else if before_at(w[0]) == "/voice"@ {
        Some(BotCommand::Voice)
    } else {
        None
    }
}

proof fn lemma_before_at(s: Seq<char>, k: int)
    requires
        0 <= k <= s.len(),
        forall|m: int| 0 <= m < k ==> #[trigger] s[m] != '@',
        k == s.len() || s[k] == '@',
    ensures
        before_at(s) == s.take(k),
    decreases k,
{
    if k > 0 {
        let t = s.skip(1);
        assert forall|m: int| 0 <= m < k - 1 implies #[trigger] t[m] != '@' by {
            assert(t[m] == s[m + 1]);
        }
        lemma_before_at(t, k - 1);
        assert(seq![s[0]] + t.take(k - 1) =~= s.take(k));
    } else {
        assert(s.take(0) =~= Seq::<char>::empty());
    }
}

/// Recognises `/analyze` and `/voice`, also in the form `/analyze@botname`
/// and followed by arguments.
pub fn parse_command(text: &str) -> (command: Option<BotCommand>)
    ensures
        command == spec_parse_command(text@),
{
    let tokens = split_words(text);
    if tokens.len() == 0 {
        return None;
    }
    let first = &tokens[0];
    assert(first@ == words(text@)[0]);
    let mut k: usize = 0;
    while k < first.len() && first[k] != '@'
        invariant
            k <= first@.len(),
            forall|m: int| 0 <= m < k ==> #[trigger] first@[m] != '@',
        decreases first@.len() - k,
    {
        k += 1;
    }
    proof {
        lemma_before_at(first@, k as int);
    }
    let mut name: Vec<char> = Vec::new();
    let mut i: usize = 0;
    while i < k
        invariant
            k <= first@.len(),
            i <= k,
            name@ == first@.take(i as int),
        decreases k - i,
    {
        name.push(first[i]);
        i += 1;
        assert(name@ =~= first@.take(i as int));
    }
    if crate::text::chars_equal_from(&name, 0, "/analyze") {
        assert(name@.skip(0) =~= name@);
        Some(BotCommand::Analyze)
    } else if crate::text::chars_equal_from(&name, 0, "/voice") {
        assert(name@.skip(0) =~= name@);
        Some(BotCommand::Voice)
    } else {
        assert(name@.skip(0) =~= name@);
        None
    }
}

/// The heading of the error reply for each command.
pub open spec fn command_error_title(command: BotCommand) -> Seq<char> {
    match command {
        BotCommand::Analyze => "Could not analyze that audio."@,
        BotCommand::Voice => "Could not re-upload that audio as a voice message."@,
    }
}

/// The reply to a failed command: a bold heading, a blank line, and the
/// escaped error text.
pub fn format_command_error(command: BotCommand, error: &str) -> (reply: String)
    ensures
        reply@ == "<b>"@ + command_error_title(command) + "</b>\n\n"@ + escaped_html(error@),
{
    let mut reply = String::from_str("<b>");
    match command {
        BotCommand::Analyze => reply.append("Could not analyze that audio."),
        BotCommand::Voice => reply.append("Could not re-upload that audio as a voice message."),
    }
    reply.append("</b>\n\n");
    let escaped = escape_html(error);
    reply.append(escaped.as_str());
    reply
}

/// The reply to a message whose handling failed: the formatted error for
/// a recognised command, and no reply to anything else.
pub fn error_reply(text: Option<&str>, error: &str) -> (reply: Option<String>)
    ensures
        match text {
            Some(t) => match spec_parse_command(t@) {
                Some(command) => reply matches Some(r) && r@ == "<b>"@ + command_error_title(
                    command,
                ) + "</b>\n\n"@ + escaped_html(error@),
                None => reply is None,
            },
            None => reply is None,
        },
{
    match text {
        Some(t) => match parse_command(t) {
            Some(command) => Some(format_command_error(command, error)),
            None => None,
        },
        None => None,
    }
}

/// The help text for `/voice`.
pub fn voice_usage_hint() -> (hint: &'static str)
    ensures
        hint@ == "Reply to a voice message or audio file with <code>/voice</code>."@,
{
    "Reply to a voice message or audio file with <code>/voice</code>."
}

/// What each command says it is doing once it has found its input.
pub open spec fn progress_action(command: BotCommand) -> Seq<char> {
    match command {
        BotCommand::Analyze => "Downloading and analyzing it now. This can take a few seconds."@,
        BotCommand::Voice => "Downloading and preparing it as a voice message now. This can take a few seconds."@,
    }
}

/// The message that acknowledges a command's input before the slow work.
pub fn progress_message(command: BotCommand, label: &str) -> (text: String)
    ensures
        text@ == "<b>Received</b> "@ + escaped_html(label@) + ".\n"@ + progress_action(command),
{
    let mut text = String::from_str("<b>Received</b> ");
    let escaped = escape_html(label);
    text.append(escaped.as_str());
    text.append(".\n");
    match command {
        BotCommand::Analyze => text.append(
            "Downloading and analyzing it now. This can take a few seconds.",
        ),
        BotCommand::Voice => text.append(
            "Downloading and preparing it as a voice message now. This can take a few seconds.",
        ),
    }
    text
}

/// Texts joined with `, ` between them.
pub open spec fn comma_joined(items: Seq<Seq<char>>) -> Seq<char>
    decreases items.len(),
{
    if items.len() == 0 {
        Seq::empty()
    } else if items.len() == 1 {
        items[0]
    } else {
        comma_joined(items.drop_last()) + ", "@ + items.last()
    }
}

/// The caption of a group of graphs: a bold heading, then the escaped
/// titles of all graphs separated by commas.
pub fn graph_caption(titles: &Vec<String>) -> (caption: String)
    ensures
        caption@ == "<b>Analysis graphs</b>\n"@ + escaped_html(comma_joined(strings_view(titles@))),
{
    let mut joined = String::new();
    let mut i: usize = 0;
    while i < titles.len()
        invariant
            i <= titles@.len(),
            joined@ == comma_joined(strings_view(titles@).take(i as int)),
        decreases titles@.len() - i,
    {
        let ghost before = joined@;
        if i > 0 {
            joined.append(", ");
        }
        joined.append(titles[i].as_str());
        proof {
            let v = strings_view(titles@);
            let t = v.take(i + 1);
            assert(t.drop_last() =~= v.take(i as int));
            assert(t.last() == titles@[i as int]@);
            if i == 0 {
                assert(joined@ =~= t[0]);
            } else {
                assert(joined@ =~= before + ", "@ + t.last());
            }
        }
        i += 1;
    }
    assert(strings_view(titles@).take(titles@.len() as int) =~= strings_view(titles@));
    let mut caption = String::from_str("<b>Analysis graphs</b>\n");
    let escaped = escape_html(joined.as_str());
    caption.append(escaped.as_str());
    caption
}

} // verus!

verus! {

/// Bytes that a character takes in UTF-8.
pub open spec fn utf8_width(c: char) -> nat {
    let u = c as u32;
    if u < 0x80 {
        1
    } else if u < 0x800 {
        2
    } else if u < 0x10000 {
        3
    } else {
        4
    }
}

/// Length of a text in UTF-8 bytes.
pub open spec fn utf8_len(s: Seq<char>) -> nat
    decreases s.len(),
{
    if s.len() == 0 {
        0
    } else {
        utf8_len(s.drop_last()) + utf8_width(s.last())
    }
}

/// Index of the first line feed, if any.
pub open spec fn first_newline(s: Seq<char>) -> Option<int>
    decreases s.len(),
{
    if s.len() == 0 {
        None
    } else if s[0] == '\n' {
        Some(0)
    } else {
        match first_newline(s.skip(1)) {
            Some(k) => Some(k + 1),
            None => None,
        }
    }
}

/// The first line feed, when there is one, lies within the text.
pub proof fn lemma_first_newline_bound(s: Seq<char>)
    ensures
        first_newline(s) matches Some(k) ==> 0 <= k < s.len() && s[k] == '\n',
    decreases s.len(),
{
    if s.len() > 0 && s[0] != '\n' {
        lemma_first_newline_bound(s.skip(1));
    }
}

/// A line without its line ending: a `\r` before the `\n` goes too.
pub open spec fn strip_cr(line: Seq<char>) -> Seq<char> {
    if line.len() > 0 && line.last() == '\r' {
        line.drop_last()
    } else {
        line
    }
}

/// The lines of a text, as `str::lines` gives them: split at `\n` or
/// `\r\n`, with no empty line after a final line ending.
pub open spec fn text_lines(s: Seq<char>) -> Seq<Seq<char>>
    decreases s.len(),
{
    if s.len() == 0 {
        Seq::empty()
    } else {
        match first_newline(s) {
            None => seq![s],
            Some(k) => {
                proof {
                    lemma_first_newline_bound(s);
                }
                seq![strip_cr(s.take(k))] + text_lines(s.skip(k + 1))
            },
        }
    }
}

/// Chunks finished so far and the chunk being filled.
pub type ChunkState = (Seq<Seq<char>>, Seq<char>);

/// Adds one line: the current chunk is sent first when the line (with its
/// separating line feed) would take it past the limit; a line joins a
/// non-empty chunk after a line feed.
pub open spec fn add_line(st: ChunkState, line: Seq<char>, limit: nat) -> ChunkState {
    let (done, current) = st;
    let (done, current) = if current.len() > 0 && utf8_len(current) + utf8_len(line) + 1 > limit {
        (done.push(current), Seq::<char>::empty())
    } else {
        (done, current)
    };
    if current.len() > 0 {
        (done, current.push('\n') + line)
    } else {
        (done, current + line)
    }
}

pub open spec fn add_lines(lines: Seq<Seq<char>>, limit: nat) -> ChunkState
    decreases lines.len(),
{
    if lines.len() == 0 {
        (Seq::empty(), Seq::empty())
    } else {
        add_line(add_lines(lines.drop_last(), limit), lines.last(), limit)
    }
}

/// The messages that a long text is sent as: the text itself when it fits
/// in `limit` bytes, else its lines gathered into chunks.
pub open spec fn message_chunks(text: Seq<char>, limit: nat) -> Seq<Seq<char>> {
    if utf8_len(text) <= limit {
        seq![text]
    } else {
        let (done, current) = add_lines(text_lines(text), limit);
        if current.len() > 0 {
            done.push(current)
        } else {
            done
        }
    }
}

fn utf8_width_exec(c: char) -> (w: usize)
    ensures
        w == utf8_width(c),
{
    let u = c as u32;
    if u < 0x80 {
        1
    } else if u < 0x800 {
        2
    } else if u < 0x10000 {
        3
    } else {
        4
    }
}

/// Length of the characters in UTF-8 bytes, saturating at `usize::MAX`.
fn utf8_len_exec(s: &Vec<char>) -> (n: usize)
    ensures
        n == if utf8_len(s@) <= usize::MAX {
            utf8_len(s@)
        } else {
            usize::MAX as nat
        },
{
    let mut n: usize = 0;
    let mut i: usize = 0;
    while i < s.len()
        invariant
            i <= s@.len(),
            n == if utf8_len(s@.take(i as int)) <= usize::MAX {
                utf8_len(s@.take(i as int))
            } else {
                usize::MAX as nat
            },
        decreases s@.len() - i,
    {
        assert(s@.take(i + 1).drop_last() =~= s@.take(i as int));
        let w = utf8_width_exec(s[i]);
        n = if n > usize::MAX - w {
            usize::MAX
        } else {
            n + w
        };
        i += 1;
    }
    assert(s@.take(s@.len() as int) =~= s@);
    n
}

proof fn lemma_first_newline(s: Seq<char>, k: int)
    requires
        0 <= k <= s.len(),
        forall|m: int| 0 <= m < k ==> #[trigger] s[m] != '\n',
        k == s.len() || s[k] == '\n',
    ensures
        first_newline(s) == if k < s.len() {
            Some(k)
        } else {
            None::<int>
        },
    decreases k,
{
    if k > 0 {
        let t = s.skip(1);
        assert forall|m: int| 0 <= m < k - 1 implies #[trigger] t[m] != '\n' by {
            assert(t[m] == s[m + 1]);
        }
        lemma_first_newline(t, k - 1);
    }
}

/// Splits a text into lines, like `str::lines`.
pub fn split_lines(text: &Vec<char>) -> (lines: Vec<Vec<char>>)
    ensures
        char_vecs_view(lines@) == text_lines(text@),
{
    let mut lines: Vec<Vec<char>> = Vec::new();
    let mut pos: usize = 0;
    assert(text@.skip(0) =~= text@);
    while pos < text.len()
        invariant
            pos <= text@.len(),
            text_lines(text@) == char_vecs_view(lines@) + text_lines(text@.skip(pos as int)),
        decreases text@.len() - pos,
    {
        let ghost rest = text@.skip(pos as int);
        let mut k: usize = pos;
        while k < text.len() && text[k] != '\n'
            invariant
                pos <= k <= text@.len(),
                rest == text@.skip(pos as int),
                forall|m: int| 0 <= m < k - pos ==> #[trigger] rest[m] != '\n',
            decreases text@.len() - k,
        {
            k += 1;
        }
        proof {
            if k < text.len() {
                assert(rest[k - pos] == text@[k as int]);
            }
            lemma_first_newline(rest, k - pos);
        }
        let mut end = k;
        if k < text.len() && k > pos && text[k - 1] == '\r' {
            end = k - 1;
        }
        let mut line: Vec<char> = Vec::new();
        let mut i: usize = pos;
        while i < end
            invariant
                pos <= i <= end,
                end <= text@.len(),
                line@ == text@.subrange(pos as int, i as int),
            decreases end - i,
        {
            line.push(text[i]);
            i += 1;
            assert(line@ =~= text@.subrange(pos as int, i as int));
        }
        let ghost before = char_vecs_view(lines@);
        let ghost piece = line@;
        lines.push(line);
        proof {
            assert(char_vecs_view(lines@) =~= before.push(piece));
            if k < text.len() {
                assert(rest.take(k - pos) =~= text@.subrange(pos as int, k as int));
                assert(piece =~= strip_cr(rest.take(k - pos)));
                assert(rest.skip(k - pos + 1) =~= text@.skip(k + 1));
                assert(before + (seq![piece] + text_lines(text@.skip(k + 1))) =~= before.push(
                    piece,
                ) + text_lines(text@.skip(k + 1)));
            } else {
                assert(piece =~= rest);
                assert(text@.skip(text@.len() as int) =~= Seq::<char>::empty());
                assert(before + seq![piece] =~= before.push(piece) + Seq::<Seq<char>>::empty());
            }
        }
        pos = if k < text.len() {
            k + 1
        } else {
            k
        };
    }
    assert(text@.skip(text@.len() as int) =~= Seq::<char>::empty());
    assert(char_vecs_view(lines@) + Seq::<Seq<char>>::empty() =~= char_vecs_view(lines@));
    lines
}

} // verus!

verus! {

/// The UTF-8 length of joined texts is the sum of their lengths.
pub proof fn lemma_utf8_len_concat(a: Seq<char>, b: Seq<char>)
    ensures
        utf8_len(a + b) == utf8_len(a) + utf8_len(b),
    decreases b.len(),
{
    if b.len() > 0 {
        lemma_utf8_len_concat(a, b.drop_last());
        assert((a + b).drop_last() =~= a + b.drop_last());
    } else {
        assert(a + b =~= a);
    }
}

/// No line of a text holds a line feed.
pub proof fn lemma_lines_have_no_newline(s: Seq<char>)
    ensures
        forall|i: int, k: int|
            0 <= i < text_lines(s).len() && 0 <= k < text_lines(s)[i].len() ==> #[trigger] text_lines(
                s,
            )[i][k] != '\n',
    decreases s.len(),
{
    if s.len() > 0 {
        lemma_first_newline_bound(s);
        match first_newline(s) {
            None => {
                assert forall|k: int| 0 <= k < s.len() implies s[k] != '\n' by {
                    lemma_no_newline_when_none(s, k);
                }
            },
            Some(k) => {
                lemma_lines_have_no_newline(s.skip(k + 1));
                let head = strip_cr(s.take(k));
                assert forall|m: int| 0 <= m < head.len() implies head[m] != '\n' by {
                    lemma_before_first_newline(s, k, m);
                }
                let lines = text_lines(s);
                assert forall|i: int, m: int|
                    0 <= i < lines.len() && 0 <= m < lines[i].len() implies #[trigger] lines[i][m]
                    != '\n' by {
                    if i > 0 {
                        assert(lines[i] == text_lines(s.skip(k + 1))[i - 1]);
                    }
                }
            },
        }
    }
}

proof fn lemma_no_newline_when_none(s: Seq<char>, k: int)
    requires
        first_newline(s) is None,
        0 <= k < s.len(),
    ensures
        s[k] != '\n',
    decreases s.len(),
{
    if k > 0 {
        lemma_no_newline_when_none(s.skip(1), k - 1);
    }
}

proof fn lemma_before_first_newline(s: Seq<char>, k: int, m: int)
    requires
        first_newline(s) == Some(k),
        0 <= m < k,
    ensures
        s[m] != '\n',
    decreases s.len(),
{
    lemma_first_newline_bound(s);
    assert(s.len() > 0 && s[0] != '\n');
    if m > 0 {
        let t = s.skip(1);
        assert(first_newline(t) == Some(k - 1));
        lemma_before_first_newline(t, k - 1, m - 1);
        assert(t[m - 1] == s[m]);
    }
}

/// A chunk with a line feed in it fits in the limit.
pub open spec fn chunk_fits(chunk: Seq<char>, limit: nat) -> bool {
    (exists|k: int| 0 <= k < chunk.len() && chunk[k] == '\n') ==> utf8_len(chunk) <= limit
}

proof fn lemma_add_lines_fit(lines: Seq<Seq<char>>, limit: nat)
    requires
        forall|i: int, k: int|
            0 <= i < lines.len() && 0 <= k < lines[i].len() ==> #[trigger] lines[i][k] != '\n',
    ensures
        forall|i: int|
            0 <= i < add_lines(lines, limit).0.len() ==> #[trigger] add_lines(lines, limit).0[i].len()
                > 0 && chunk_fits(add_lines(lines, limit).0[i], limit),
        chunk_fits(add_lines(lines, limit).1, limit),
    decreases lines.len(),
{
    if lines.len() > 0 {
        let prev = lines.drop_last();
        assert forall|i: int, k: int|
            0 <= i < prev.len() && 0 <= k < prev[i].len() implies #[trigger] prev[i][k] != '\n' by {
            assert(prev[i] == lines[i]);
        }
        lemma_add_lines_fit(prev, limit);
        let (done, current) = add_lines(prev, limit);
        let line = lines.last();
        assert(line == lines[lines.len() - 1]);
        let flush = current.len() > 0 && utf8_len(current) + utf8_len(line) + 1 > limit;
        if flush || current.len() == 0 {
            let next = add_lines(lines, limit).1;
            assert(next =~= line);
            assert forall|k: int| 0 <= k < next.len() implies next[k] != '\n' by {
                assert(next[k] == lines[lines.len() - 1][k]);
            }
        } else {
            lemma_utf8_len_concat(current.push('\n'), line);
            lemma_utf8_len_concat(current, seq!['\n']);
            assert(current.push('\n') =~= current + seq!['\n']);
            assert(utf8_len(seq!['\n']) == 1) by {
                let nl = seq!['\n'];
                assert(nl.drop_last() =~= Seq::<char>::empty());
                assert(nl.last() == '\n');
                assert(('\n' as u32) == 10);
                assert(utf8_width('\n') == 1);
                assert(utf8_len(Seq::<char>::empty()) == 0);
            }
        }
    }
}

/// Every message that a text is sent as either fits in the limit or is a
/// single line without line feeds.
pub proof fn lemma_chunks_fit(text: Seq<char>, limit: nat)
    ensures
        forall|i: int|
            0 <= i < message_chunks(text, limit).len() ==> chunk_fits(
                #[trigger] message_chunks(text, limit)[i],
                limit,
            ),
{
    if utf8_len(text) > limit {
        lemma_lines_have_no_newline(text);
        lemma_add_lines_fit(text_lines(text), limit);
    }
}

/// The views of a vector of strings.
pub open spec fn strings_view(v: Seq<String>) -> Seq<Seq<char>> {
    v.map_values(|s: String| s@)
}

/// Splits a report into the messages that it is sent as: the whole text
/// when it fits in `limit` bytes, else chunks of whole lines, each within
/// the limit unless it is a single longer line.
pub fn split_message(text: &str, limit: usize) -> (chunks: Vec<String>)
    requires
        utf8_len(text@) <= usize::MAX,
    ensures
        strings_view(chunks@) == message_chunks(text@, limit as nat),
{
    let chars = chars_of(text);
    let total = utf8_len_exec(&chars);
    if total <= limit {
        let mut single: Vec<String> = Vec::new();
        single.push(String::from_str(text));
        assert(strings_view(single@) =~= seq![text@]);
        return single;
    }
    let lines = split_lines(&chars);
    let ghost all_lines = text_lines(text@);
    let mut done: Vec<String> = Vec::new();
    let mut current: Vec<char> = Vec::new();
    let mut i: usize = 0;
    while i < lines.len()
        invariant
            char_vecs_view(lines@) == all_lines,
            all_lines == text_lines(text@),
            i <= lines@.len(),
            add_lines(all_lines.take(i as int), limit as nat) == (strings_view(done@), current@),
        decreases lines@.len() - i,
    {
        let line = &lines[i];
        assert(line@ == all_lines[i as int]);
        assert(all_lines.take(i + 1).drop_last() =~= all_lines.take(i as int));
        let cur_len = utf8_len_exec(&current);
        let line_len = utf8_len_exec(line);
        if current.len() > 0 && (cur_len as u128) + (line_len as u128) + 1 > (limit as u128) {
            let ghost before = strings_view(done@);
            let ghost finished = current@;
            done.push(string_of(&current));
            current = Vec::new();
            assert(strings_view(done@) =~= before.push(finished));
        }
        if current.len() > 0 {
            current.push('\n');
        }
        let ghost before_line = current@;
        let mut k: usize = 0;
        while k < line.len()
            invariant
                k <= line@.len(),
                current@ == before_line + line@.take(k as int),
            decreases line@.len() - k,
        {
            current.push(line[k]);
            k += 1;
            assert(current@ =~= before_line + line@.take(k as int));
        }
        assert(line@.take(line@.len() as int) =~= line@);
        i += 1;
    }
    assert(all_lines.take(lines@.len() as int) =~= all_lines);
    if current.len() > 0 {
        let ghost before = strings_view(done@);
        let ghost finished = current@;
        done.push(string_of(&current));
        assert(strings_view(done@) =~= before.push(finished));
    }
    done
}

} // verus!
