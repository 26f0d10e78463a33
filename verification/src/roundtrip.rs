//! Writing a pipeline out and reading it back.
//!
//! The text of a pipeline is read back as the same pipeline exactly where the
//! pipeline holds nothing that a line cannot say ([`lemma_round_trip`]). What
//! a line is read as always holds only words that a line can say
//! ([`lemma_parse_line_plain`]), so reading is stable: the text of what was
//! read gives what was read ([`lemma_reparse`]).

use crate::command::{
    input_mark, output_mark, parse_command, redirection, render_command, scan, CommandView,
};
use crate::pipeline::{
    background_mark, lemma_parse_segments_last, lemma_parse_segments_one,
    lemma_parse_segments_step, parse_line, parse_segment, parse_segments, pipe_mark,
    render_commands, render_pipeline, PipelineView,
};
use crate::text::{
    is_whitespace, is_word, join, lacks, lemma_segment_len_prefix, lemma_split_lacks,
    lemma_tokens_are_words, lemma_tokens_lack, lemma_trim_lacks, lemma_word_len_is, segment_len,
    split, tokens, trim, trim_end, trim_start,
};
use vstd::prelude::*;

verus! {

/// The single space that stands between the words of a command.
pub open spec fn space() -> Seq<char> {
    seq![' ']
}

/// The text that stands between the commands of a pipeline.
pub open spec fn bar() -> Seq<char> {
    seq![' ', pipe_mark(), ' ']
}

/// Whether every character of `s` is whitespace.
pub open spec fn is_blank(s: Seq<char>) -> bool {
    forall|k: int| 0 <= k < s.len() ==> is_whitespace(#[trigger] s[k])
}

/// Whether `s` is not empty and neither begins nor ends with whitespace.
pub open spec fn is_tight(s: Seq<char>) -> bool {
    &&& s.len() > 0
    &&& !is_whitespace(s.first())
    &&& !is_whitespace(s.last())
}

/// Whether no pipe mark occurs in `s`.
pub open spec fn is_pipe_free(s: Seq<char>) -> bool {
    lacks(s, pipe_mark())
}

/// Whether `w` can stand in a line as one word of a command: it is a word
/// and holds no pipe mark.
pub open spec fn is_plain_word(w: Seq<char>) -> bool {
    is_word(w) && is_pipe_free(w)
}

/// Whether `w` is one of the two redirection marks.
pub open spec fn is_mark(w: Seq<char>) -> bool {
    w == input_mark() || w == output_mark()
}

/// Whether a command holds only what a line can say: arguments that are
/// plain words and no redirection marks, and paths that are plain words.
pub open spec fn has_plain_words(command: CommandView) -> bool {
    &&& forall|i: int|
        0 <= i < command.arguments.len() ==> is_plain_word(#[trigger] command.arguments[i])
            && !is_mark(command.arguments[i])
    &&& command.input_path matches Some(path) ==> is_plain_word(path)
    &&& command.output_path matches Some(path) ==> is_plain_word(path)
}

/// Whether a command holds at least one word: an argument or a path.
pub open spec fn has_word(command: CommandView) -> bool {
    command.words().len() > 0
}

/// Whether a command is read back from its text as it is: it holds only what
/// a line can say, and at least one word.
pub open spec fn command_round_trips(command: CommandView) -> bool {
    has_plain_words(command) && has_word(command)
}

/// Those of `commands` that hold at least one word, in order.
pub open spec fn with_words(commands: Seq<CommandView>) -> Seq<CommandView>
    decreases commands.len(),
{
    if commands.len() == 0 {
        Seq::empty()
    } else if has_word(commands[0]) {
        seq![commands[0]] + with_words(commands.drop_first())
    } else {
        with_words(commands.drop_first())
    }
}

/// Whether `text` ends in a background mark.
pub open spec fn ends_in_background_mark(text: Seq<char>) -> bool {
    text.len() > 0 && text.last() == background_mark()
}

/// Whether a pipeline is read back from its text as it is: each of its
/// commands is, and where the shell waits, the text does not end in a
/// background mark.
pub open spec fn pipeline_round_trips(pipeline: PipelineView) -> bool {
    &&& forall|i: int|
        0 <= i < pipeline.commands.len() ==> command_round_trips(#[trigger] pipeline.commands[i])
    &&& pipeline.wait ==> !ends_in_background_mark(render_pipeline(pipeline))
}

/// Leading whitespace does not show in what `trim_start` leaves.
proof fn lemma_trim_start_blank(blank: Seq<char>, s: Seq<char>)
    requires
        is_blank(blank),
    ensures
        trim_start(blank + s) == trim_start(s),
    decreases blank.len(),
{
    if blank.len() == 0 {
        assert(blank + s =~= s);
    } else {
        let rest = blank.drop_first();
        assert((blank + s).first() == blank[0]);
        assert((blank + s).drop_first() =~= rest + s);
        assert forall|k: int| 0 <= k < rest.len() implies is_whitespace(#[trigger] rest[k]) by {
            assert(rest[k] == blank[k + 1]);
        }
        lemma_trim_start_blank(rest, s);
    }
}

/// Trailing whitespace does not show in what `trim_end` leaves.
proof fn lemma_trim_end_blank(s: Seq<char>, blank: Seq<char>)
    requires
        is_blank(blank),
    ensures
        trim_end(s + blank) == trim_end(s),
    decreases blank.len(),
{
    if blank.len() == 0 {
        assert(s + blank =~= s);
    } else {
        let rest = blank.drop_last();
        assert((s + blank).last() == blank.last());
        assert((s + blank).drop_last() =~= s + rest);
        assert forall|k: int| 0 <= k < rest.len() implies is_whitespace(#[trigger] rest[k]) by {
            assert(rest[k] == blank[k]);
        }
        lemma_trim_end_blank(s, rest);
    }
}

/// Trimming takes whitespace off both ends of a text, and nothing more where
/// the text between is empty or tight.
proof fn lemma_trim_padded(lead: Seq<char>, s: Seq<char>, pad: Seq<char>)
    requires
        is_blank(lead),
        is_blank(pad),
        s.len() == 0 || is_tight(s),
    ensures
        trim(lead + s + pad) == s,
{
    assert(lead + s + pad =~= lead + (s + pad));
    lemma_trim_start_blank(lead, s + pad);
    if s.len() == 0 {
        assert(s + pad =~= pad + s);
        lemma_trim_start_blank(pad, s);
    } else {
        assert((s + pad).first() == s.first());
        lemma_trim_end_blank(s, pad);
    }
}

/// Texts that are not empty, joined, begin as the first of them begins and
/// end as the last of them ends.
proof fn lemma_join_ends(words: Seq<Seq<char>>, sep: Seq<char>)
    requires
        words.len() > 0,
        forall|i: int| 0 <= i < words.len() ==> (#[trigger] words[i]).len() > 0,
    ensures
        join(words, sep).len() > 0,
        join(words, sep).first() == words.first().first(),
        join(words, sep).last() == words.last().last(),
    decreases words.len(),
{
    if words.len() > 1 {
        let rest = words.drop_first();
        assert forall|i: int| 0 <= i < rest.len() implies (#[trigger] rest[i]).len() > 0 by {
            assert(rest[i] == words[i + 1]);
        }
        lemma_join_ends(rest, sep);
        assert(rest.last() == words.last());
    }
}

/// Joining texts without a pipe mark, by a separator without one, gives a
/// text without one.
proof fn lemma_join_pipe_free(words: Seq<Seq<char>>, sep: Seq<char>)
    requires
        forall|i: int| 0 <= i < words.len() ==> is_pipe_free(#[trigger] words[i]),
        is_pipe_free(sep),
    ensures
        is_pipe_free(join(words, sep)),
    decreases words.len(),
{
    if words.len() > 0 {
        assert(is_pipe_free(words[0]));
    }
    if words.len() > 1 {
        let rest = words.drop_first();
        assert forall|i: int| 0 <= i < rest.len() implies is_pipe_free(#[trigger] rest[i]) by {
            assert(rest[i] == words[i + 1]);
        }
        lemma_join_pipe_free(rest, sep);
    }
}

/// Words joined by single spaces are cut into the same words again.
proof fn lemma_tokens_join(words: Seq<Seq<char>>)
    requires
        forall|i: int| 0 <= i < words.len() ==> is_word(#[trigger] words[i]),
    ensures
        tokens(join(words, space())) == words,
    decreases words.len(),
{
    let text = join(words, space());
    if words.len() > 0 {
        let word = words[0];
        let rest = words.drop_first();
        let n = word.len() as int;
        assert(is_word(word));
        assert forall|i: int| 0 <= i < rest.len() implies is_word(#[trigger] rest[i]) by {
            assert(rest[i] == words[i + 1]);
        }
        lemma_tokens_join(rest);
        if words.len() > 1 {
            // The first word ends where the space after it stands; what
            // follows that space is the text of the other words.
            assert forall|k: int| 0 <= k < n implies !is_whitespace(#[trigger] text[k]) by {
                assert(text[k] == word[k]);
            }
            assert(text[n] == ' ');
            assert(text.skip(n).drop_first() =~= join(rest, space()));
        }
        lemma_word_len_is(text, n);
        assert(text.take(n) =~= word);
        assert(tokens(text) == seq![text.take(n)] + tokens(text.skip(n)));
    }
}

/// The command that holds `arguments` and no redirection.
spec fn bare(arguments: Seq<Seq<char>>) -> CommandView {
    CommandView { arguments, input_path: None, output_path: None }
}

/// Scanning the words of a command from its argument at `done` on, into the
/// arguments before it, gives the command.
proof fn lemma_scan_words(command: CommandView, done: int)
    requires
        forall|i: int|
            0 <= i < command.arguments.len() ==> !is_mark(#[trigger] command.arguments[i]),
        0 <= done <= command.arguments.len(),
    ensures
        scan(command.words().skip(done), bare(command.arguments.take(done))) == command,
    decreases command.arguments.len() - done,
{
    let words = command.words().skip(done);
    let seen = bare(command.arguments.take(done));
    if done < command.arguments.len() {
        assert(words[0] == command.arguments[done]);
        assert(words.skip(1) =~= command.words().skip(done + 1));
        assert(seen.with_argument(words[0]).arguments =~= command.arguments.take(done + 1));
        lemma_scan_words(command, done + 1);
    } else {
        // Only the redirections are left: first that of the input, then that
        // of the output.
        let output = redirection(output_mark(), command.output_path);
        let read = seen.with_input(command.input_path);
        assert(seen.arguments =~= command.arguments);
        assert(scan(words, seen) == scan(output, read)) by {
            if command.input_path is Some {
                assert(words.skip(2) =~= output);
            } else {
                assert(words =~= output);
            }
        }
        assert(scan(output, read) == command) by {
            if command.output_path is Some {
                assert(output_mark()[0] != input_mark()[0]);
                assert(scan(output.skip(2), read.with_output(Some(output[1]))) == command);
            }
        }
    }
}

/// The text of a command that holds only plain words has no pipe mark. Where
/// the command holds a word, its text is tight and is read back as the
/// command; where it holds none, its text is empty.
proof fn lemma_render_command(command: CommandView)
    requires
        has_plain_words(command),
    ensures
        is_pipe_free(render_command(command)),
        has_word(command) ==> is_tight(render_command(command)) && parse_command(
            render_command(command),
        ) == command,
        !has_word(command) ==> render_command(command).len() == 0,
{
    let words = command.words();
    assert(is_plain_word(input_mark()));
    assert(is_plain_word(output_mark()));
    assert forall|i: int| 0 <= i < words.len() implies is_plain_word(#[trigger] words[i]) by {
        let input = redirection(input_mark(), command.input_path);
        let output = redirection(output_mark(), command.output_path);
        let a = command.arguments.len() as int;
        if i < a {
            assert(words[i] == command.arguments[i]);
        } else if i < a + input.len() {
            assert(words[i] == input[i - a]);
        } else {
            assert(words[i] == output[i - a - input.len()]);
        }
    }
    lemma_join_pipe_free(words, space());
    if has_word(command) {
        lemma_join_ends(words, space());
        lemma_tokens_join(words);
        lemma_scan_words(command, 0);
        assert(words.skip(0) =~= words);
        assert(command.arguments.take(0) =~= Seq::<Seq<char>>::empty());
        assert(bare(command.arguments.take(0)) == CommandView::empty());
    }
}

/// No more commands hold a word than there are commands, and all of them do
/// exactly where taking those that do changes nothing.
proof fn lemma_with_words(commands: Seq<CommandView>)
    ensures
        with_words(commands).len() <= commands.len(),
        with_words(commands) == commands <==> forall|i: int|
            0 <= i < commands.len() ==> has_word(#[trigger] commands[i]),
    decreases commands.len(),
{
    if commands.len() == 0 {
        assert(with_words(commands) =~= commands);
    } else {
        let rest = commands.drop_first();
        lemma_with_words(rest);
        if has_word(commands[0]) {
            if with_words(commands) == commands {
                assert(with_words(rest) =~= commands.drop_first());
                assert forall|i: int| 0 <= i < commands.len() implies has_word(
                    #[trigger] commands[i],
                ) by {
                    if i > 0 {
                        assert(commands[i] == rest[i - 1]);
                    }
                }
            }
            if forall|i: int| 0 <= i < commands.len() ==> has_word(#[trigger] commands[i]) {
                assert forall|i: int| 0 <= i < rest.len() implies has_word(#[trigger] rest[i]) by {
                    assert(rest[i] == commands[i + 1]);
                }
                assert(seq![commands[0]] + rest =~= commands);
            }
        }
    }
}

/// The texts of commands that hold only plain words, joined by bars and
/// padded with whitespace, are cut into those of the commands that hold a
/// word.
proof fn lemma_parse_chain(commands: Seq<CommandView>, lead: Seq<char>, pad: Seq<char>)
    requires
        forall|i: int| 0 <= i < commands.len() ==> has_plain_words(#[trigger] commands[i]),
        is_blank(lead),
        is_blank(pad),
    ensures
        parse_segments(split(lead + join(render_commands(commands), bar()) + pad, pipe_mark()))
            == with_words(commands),
    decreases commands.len(),
{
    let texts = render_commands(commands);
    let line = lead + join(texts, bar()) + pad;
    if commands.len() == 0 {
        // A blank line is one segment without a command.
        lemma_parse_segments_last(line);
        lemma_parse_segments_one(line);
        lemma_trim_padded(lead, Seq::empty(), pad);
    } else {
        let text = render_command(commands[0]);
        let rest = commands.drop_first();
        lemma_render_command(commands[0]);
        if commands.len() == 1 {
            // No pipe mark: the line is one segment, the padded text of the
            // command.
            lemma_parse_segments_last(line);
            lemma_parse_segments_one(line);
            lemma_trim_padded(lead, text, pad);
            assert(with_words(rest) =~= Seq::<CommandView>::empty());
        } else {
            // The first pipe mark stands in the bar after the first command.
            let n = (lead.len() + text.len() + 1) as int;
            assert(texts.drop_first() =~= render_commands(rest));
            assert forall|i: int| 0 <= i < rest.len() implies has_plain_words(
                #[trigger] rest[i],
            ) by {
                assert(rest[i] == commands[i + 1]);
            }
            assert forall|k: int| 0 <= k < n implies #[trigger] line[k] != pipe_mark() by {
                if k < lead.len() {
                    assert(line[k] == lead[k]);
                } else if k < lead.len() + text.len() {
                    assert(line[k] == text[k - lead.len()]);
                } else {
                    assert(line[k] == ' ');
                }
            }
            lemma_parse_segments_step(line, n);
            assert(line.take(n) =~= lead + text + space());
            assert(line.skip(n + 1) =~= space() + join(render_commands(rest), bar()) + pad);
            lemma_trim_padded(lead, text, space());
            lemma_parse_segments_one(line.take(n));
            lemma_parse_chain(rest, space(), pad);
        }
    }
}

/// Scanning plain words into a command that holds only plain words gives a
/// command that holds only plain words.
proof fn lemma_scan_plain(words: Seq<Seq<char>>, command: CommandView)
    requires
        forall|i: int| 0 <= i < words.len() ==> is_plain_word(#[trigger] words[i]),
        has_plain_words(command),
    ensures
        has_plain_words(scan(words, command)),
    decreases words.len(),
{
    if words.len() > 0 && is_mark(words[0]) {
        if words.len() > 1 {
            let rest = words.skip(2);
            assert(is_plain_word(words[1]));
            assert forall|i: int| 0 <= i < rest.len() implies is_plain_word(#[trigger] rest[i]) by {
                assert(rest[i] == words[i + 2]);
            }
            if words[0] == input_mark() {
                lemma_scan_plain(rest, command.with_input(Some(words[1])));
            } else {
                lemma_scan_plain(rest, command.with_output(Some(words[1])));
            }
        }
    } else if words.len() > 0 {
        let rest = words.skip(1);
        let next = command.with_argument(words[0]);
        assert(is_plain_word(words[0]));
        assert forall|i: int| 0 <= i < rest.len() implies is_plain_word(#[trigger] rest[i]) by {
            assert(rest[i] == words[i + 1]);
        }
        assert forall|i: int| 0 <= i < next.arguments.len() implies is_plain_word(
            #[trigger] next.arguments[i],
        ) && !is_mark(next.arguments[i]) by {
            if i < command.arguments.len() {
                assert(next.arguments[i] == command.arguments[i]);
            }
        }
        lemma_scan_plain(rest, next);
    }
}

/// The commands read from segments without a pipe mark hold only plain words.
proof fn lemma_parse_segments_plain(segments: Seq<Seq<char>>)
    requires
        forall|i: int| 0 <= i < segments.len() ==> is_pipe_free(#[trigger] segments[i]),
    ensures
        forall|i: int|
            0 <= i < parse_segments(segments).len() ==> has_plain_words(
                #[trigger] parse_segments(segments)[i],
            ),
    decreases segments.len(),
{
    if segments.len() > 0 {
        let rest = segments.drop_first();
        let text = trim(segments[0]);
        assert(is_pipe_free(segments[0]));
        assert forall|i: int| 0 <= i < rest.len() implies is_pipe_free(#[trigger] rest[i]) by {
            assert(rest[i] == segments[i + 1]);
        }
        lemma_parse_segments_plain(rest);
        lemma_trim_lacks(segments[0], pipe_mark());
        lemma_tokens_lack(text, pipe_mark());
        lemma_tokens_are_words(text);
        lemma_scan_plain(tokens(text), CommandView::empty());
        let all = parse_segments(segments);
        let tail = parse_segments(rest);
        assert forall|i: int| 0 <= i < all.len() implies has_plain_words(#[trigger] all[i]) by {
            if parse_segment(segments[0]) is Some && i > 0 {
                assert(all[i] == tail[i - 1]);
            }
        }
    }
}

/// Whitespace before a text does not show in the commands that are read
/// from it.
proof fn lemma_commands_after_blank(blank: Seq<char>, text: Seq<char>)
    requires
        is_blank(blank),
    ensures
        parse_segments(split(blank + text, pipe_mark())) == parse_segments(
            split(text, pipe_mark()),
        ),
{
    let line = blank + text;
    let n = segment_len(text, pipe_mark()) as int;
    let m = blank.len() + n;
    lemma_segment_len_prefix(text, pipe_mark());
    assert forall|k: int| 0 <= k < m implies #[trigger] line[k] != pipe_mark() by {
        if k < blank.len() {
            assert(line[k] == blank[k]);
        } else {
            assert(line[k] == text[k - blank.len()]);
        }
    }
    lemma_trim_start_blank(blank, text.take(n));
    assert(parse_segment(blank + text.take(n)) == parse_segment(text.take(n)));
    lemma_parse_segments_one(blank + text.take(n));
    lemma_parse_segments_one(text.take(n));
    if n < text.len() {
        lemma_parse_segments_step(line, m);
        lemma_parse_segments_step(text, n);
        assert(line.take(m) =~= blank + text.take(n));
        assert(line.skip(m + 1) =~= text.skip(n + 1));
    } else {
        lemma_parse_segments_last(line);
        lemma_parse_segments_last(text);
        assert(text.take(n) =~= text);
    }
}

/// What `trim_start` leaves of a text followed by whitespace: nothing where
/// the text is blank, else what it leaves of the text, followed by that
/// whitespace.
proof fn lemma_trim_start_before_blank(text: Seq<char>, blank: Seq<char>)
    requires
        is_blank(blank),
    ensures
        is_blank(text) ==> trim_start(text + blank).len() == 0 && trim_start(text).len() == 0,
        !is_blank(text) ==> trim_start(text + blank) == trim_start(text) + blank,
    decreases text.len(),
{
    if text.len() == 0 {
        lemma_trim_start_blank(blank, text);
        assert(text + blank =~= blank + text);
    } else if is_whitespace(text.first()) {
        let rest = text.drop_first();
        assert((text + blank).drop_first() =~= rest + blank);
        assert(is_blank(text) <==> is_blank(rest)) by {
            if is_blank(rest) {
                assert forall|k: int| 0 <= k < text.len() implies is_whitespace(
                    #[trigger] text[k],
                ) by {
                    if k > 0 {
                        assert(text[k] == rest[k - 1]);
                    }
                }
            }
            if is_blank(text) {
                assert forall|k: int| 0 <= k < rest.len() implies is_whitespace(
                    #[trigger] rest[k],
                ) by {
                    assert(rest[k] == text[k + 1]);
                }
            }
        }
        lemma_trim_start_before_blank(rest, blank);
    } else {
        assert((text + blank).first() == text.first());
    }
}

/// Whitespace after a text does not show in the commands that are read from
/// it.
proof fn lemma_commands_before_blank(text: Seq<char>, blank: Seq<char>)
    requires
        is_blank(blank),
    ensures
        parse_segments(split(text + blank, pipe_mark())) == parse_segments(
            split(text, pipe_mark()),
        ),
    decreases text.len(),
{
    let line = text + blank;
    let n = segment_len(text, pipe_mark()) as int;
    lemma_segment_len_prefix(text, pipe_mark());
    if n < text.len() {
        // The first pipe mark of the line is that of the text.
        assert forall|k: int| 0 <= k < n implies #[trigger] line[k] != pipe_mark() by {
            assert(line[k] == text[k]);
        }
        lemma_parse_segments_step(line, n);
        lemma_parse_segments_step(text, n);
        assert(line.take(n) =~= text.take(n));
        assert(line.skip(n + 1) =~= text.skip(n + 1) + blank);
        lemma_commands_before_blank(text.skip(n + 1), blank);
    } else {
        // Neither holds a pipe mark, and both are trimmed to the same text.
        assert(text.take(n) =~= text);
        assert forall|k: int| 0 <= k < line.len() implies #[trigger] line[k] != pipe_mark() by {
            if k < text.len() {
                assert(line[k] == text[k]);
            } else {
                assert(line[k] == blank[k - text.len()]);
            }
        }
        lemma_parse_segments_last(line);
        lemma_parse_segments_last(text);
        lemma_parse_segments_one(line);
        lemma_parse_segments_one(text);
        lemma_trim_start_before_blank(text, blank);
        if !is_blank(text) {
            lemma_trim_end_blank(trim_start(text), blank);
        }
        assert(trim(line) == trim(text));
    }
}

/// Taking the whitespace off the start of a text does not show in the
/// commands that are read from it.
proof fn lemma_commands_of_trimmed_start(text: Seq<char>)
    ensures
        parse_segments(split(trim_start(text), pipe_mark())) == parse_segments(
            split(text, pipe_mark()),
        ),
    decreases text.len(),
{
    if text.len() > 0 && is_whitespace(text.first()) {
        lemma_commands_of_trimmed_start(text.drop_first());
        assert(seq![text.first()] + text.drop_first() =~= text);
        lemma_commands_after_blank(seq![text.first()], text.drop_first());
    }
}

/// Taking the whitespace off the end of a text does not show in the commands
/// that are read from it.
proof fn lemma_commands_of_trimmed_end(text: Seq<char>)
    ensures
        parse_segments(split(trim_end(text), pipe_mark())) == parse_segments(
            split(text, pipe_mark()),
        ),
    decreases text.len(),
{
    if text.len() > 0 && is_whitespace(text.last()) {
        lemma_commands_of_trimmed_end(text.drop_last());
        assert(text.drop_last() + seq![text.last()] =~= text);
        lemma_commands_before_blank(text.drop_last(), seq![text.last()]);
    }
}

/// Trimming a text does not show in the commands that are read from it.
proof fn lemma_commands_of_trimmed(text: Seq<char>)
    ensures
        parse_segments(split(trim(text), pipe_mark())) == parse_segments(
            split(text, pipe_mark()),
        ),
{
    lemma_commands_of_trimmed_start(text);
    lemma_commands_of_trimmed_end(trim_start(text));
}

/// A text that ends with a character that is not whitespace keeps that
/// character as its last when it is trimmed, and without that character, what
/// is left of it is what `trim_start` leaves of the text without it.
proof fn lemma_trim_keeps_last(text: Seq<char>)
    requires
        text.len() > 0,
        !is_whitespace(text.last()),
    ensures
        trim(text).len() > 0,
        trim(text).last() == text.last(),
        trim(text).drop_last() == trim_start(text.drop_last()),
    decreases text.len(),
{
    if is_whitespace(text.first()) {
        let rest = text.drop_first();
        assert(rest.last() == text.last());
        assert(rest.drop_last() =~= text.drop_last().drop_first());
        assert(text.drop_last().first() == text.first());
        lemma_trim_keeps_last(rest);
    } else if text.len() > 1 {
        assert(text.drop_last().first() == text.first());
    }
}

/// What the text of a pipeline is read as. Where the commands of a pipeline
/// hold only plain words, and its text, trimmed, does not end in a
/// background mark though the shell is to wait, the text is read as the
/// pipeline of those commands that hold a word, with the same wait flag.
proof fn lemma_parse_of_render(pipeline: PipelineView)
    requires
        forall|i: int|
            0 <= i < pipeline.commands.len() ==> has_plain_words(#[trigger] pipeline.commands[i]),
        pipeline.wait ==> !ends_in_background_mark(trim(render_pipeline(pipeline))),
    ensures
        parse_line(render_pipeline(pipeline)) == pipeline.with_commands(
            with_words(pipeline.commands),
        ),
{
    let commands = pipeline.commands;
    let chain = join(render_commands(commands), bar());
    let none = Seq::<char>::empty();
    if pipeline.wait {
        lemma_commands_of_trimmed(chain);
        assert(none + chain + none =~= chain);
        lemma_parse_chain(commands, none, none);
    } else {
        let line = chain + space() + seq![background_mark()];
        assert(line =~= render_pipeline(pipeline));
        assert(line.drop_last() =~= none + chain + space());
        lemma_trim_keeps_last(line);
        lemma_commands_of_trimmed_start(line.drop_last());
        lemma_parse_chain(commands, none, space());
    }
}

/// The text of a pipeline whose commands round-trip is empty or tight.
proof fn lemma_render_tight(pipeline: PipelineView)
    requires
        forall|i: int|
            0 <= i < pipeline.commands.len() ==> command_round_trips(
                #[trigger] pipeline.commands[i],
            ),
        pipeline.wait,
    ensures
        trim(render_pipeline(pipeline)) == render_pipeline(pipeline),
{
    let commands = pipeline.commands;
    let texts = render_commands(commands);
    let chain = join(texts, bar());
    let none = Seq::<char>::empty();
    if commands.len() > 0 {
        // The chain begins as its first command and ends as its last.
        assert forall|i: int| 0 <= i < texts.len() implies (#[trigger] texts[i]).len() > 0 by {
            lemma_render_command(commands[i]);
        }
        lemma_join_ends(texts, bar());
        lemma_render_command(commands.first());
        lemma_render_command(commands.last());
        assert(is_tight(chain));
    }
    lemma_trim_padded(none, chain, none);
    assert(none + chain + none =~= chain);
}

/// Round trip. A pipeline is read back from its own text as it is exactly
/// where each of its commands holds at least one word, its words are such as
/// a line can hold, and its text does not end in a background mark though the
/// shell is to wait.
pub proof fn lemma_round_trip(pipeline: PipelineView)
    ensures
        parse_line(render_pipeline(pipeline)) == pipeline <==> pipeline_round_trips(pipeline),
{
    let commands = pipeline.commands;
    let line = render_pipeline(pipeline);
    lemma_with_words(commands);
    if pipeline_round_trips(pipeline) {
        if pipeline.wait {
            lemma_render_tight(pipeline);
        }
        lemma_parse_of_render(pipeline);
    }
    if parse_line(line) == pipeline {
        lemma_parse_line_plain(line);
        lemma_parse_of_render(pipeline);
        if pipeline.wait {
            lemma_render_tight(pipeline);
        }
    }
}

/// What a line is read as. Whatever the line, the commands of its pipeline
/// hold only plain words: arguments and paths that are not empty and hold
/// neither whitespace nor a pipe mark, and no redirection mark among the
/// arguments.
pub proof fn lemma_parse_line_plain(line: Seq<char>)
    ensures
        forall|i: int|
            0 <= i < parse_line(line).commands.len() ==> has_plain_words(
                #[trigger] parse_line(line).commands[i],
            ),
{
    let text = trim(line);
    lemma_split_lacks(text, pipe_mark());
    lemma_split_lacks(text.drop_last(), pipe_mark());
    lemma_parse_segments_plain(split(text, pipe_mark()));
    lemma_parse_segments_plain(split(text.drop_last(), pipe_mark()));
}

/// Reading is stable. The text of what a line is read as is read as the same
/// again, exactly where each command read from the line holds at least one
/// word and that text does not end in a background mark though the line did
/// not.
pub proof fn lemma_reparse(line: Seq<char>)
    ensures
        parse_line(render_pipeline(parse_line(line))) == parse_line(line) <==> {
            &&& forall|i: int|
                0 <= i < parse_line(line).commands.len() ==> has_word(
                    #[trigger] parse_line(line).commands[i],
                )
            &&& parse_line(line).wait ==> !ends_in_background_mark(
                render_pipeline(parse_line(line)),
            )
        },
{
    lemma_parse_line_plain(line);
    lemma_round_trip(parse_line(line));
}

} // verus!
