//! Laws of texts, and of what the records of a session say.
use crate::order;
use crate::order::SortKeyView;
use crate::parser;
use crate::parser::{AgentEventView, ContentBlock, Message, MessageContent, Record, RecordType};
use crate::seqs;
use crate::text;
use crate::text::CharClass;
use vstd::prelude::*;

verus! {

// ---------------------------------------------------------------------------------------------
// Characters
// ---------------------------------------------------------------------------------------------

/// White space among the ASCII characters is the space, the tab, and the characters that end a
/// line or a page. Beyond them there are the spaces of Unicode, the wide one of ideographic text
/// among them.
pub proof fn law_white_space(c: char)
    ensures
        c as u32 <= 0x7f ==> (text::is_white(c) <==> (c == ' ' || c == '\t' || c == '\n' || c
            == '\r' || c as u32 == 0xb || c as u32 == 0xc)),
        (c as u32 == 0x85 || c as u32 == 0xa0 || c as u32 == 0x1680 || 0x2000 <= c as u32 <= 0x200a
            || c as u32 == 0x2028 || c as u32 == 0x2029 || c as u32 == 0x202f || c as u32 == 0x205f
            || c as u32 == 0x3000) ==> text::is_white(c),
        c as u32 > 0x3000 ==> !text::is_white(c),
{
}

/// Case is a matter of the ASCII letters, whose small forms stand thirty-two behind the capitals.
pub proof fn law_letter_case(c: char)
    ensures
        'A' <= c <= 'Z' ==> text::ascii_lower(c) as u32 == c as u32 + 32 && text::ascii_upper(
            text::ascii_lower(c),
        ) == c,
        'a' <= c <= 'z' ==> text::ascii_upper(c) as u32 == c as u32 - 32 && text::ascii_lower(
            text::ascii_upper(c),
        ) == c,
        !('A' <= c <= 'Z') ==> text::ascii_lower(c) == c,
        !('a' <= c <= 'z') ==> text::ascii_upper(c) == c,
{
}

// ---------------------------------------------------------------------------------------------
// Texts
// ---------------------------------------------------------------------------------------------

/// A clipped text is the start of the text, as long as it may be.
pub proof fn law_clip_length(s: Seq<char>, n: int)
    requires
        0 <= n,
    ensures
        text::clip(s, n).is_prefix_of(s),
        s.len() <= n ==> text::clip(s, n) == s,
        s.len() > n ==> text::clip(s, n).len() == n,
{
    text::law_clip(s, n);
}

proof fn lemma_trim_front(s: Seq<char>, class: CharClass, lo: int)
    requires
        0 <= lo <= s.len(),
        forall|i: int| 0 <= i < lo ==> class.holds(#[trigger] s[i]),
        lo < s.len() ==> !class.holds(s[lo]),
    ensures
        text::trim_front(s, class) == s.skip(lo),
    decreases lo,
{
    if lo == 0 {
        assert(s.skip(0) =~= s);
    } else {
        let rest = s.drop_first();
        assert(class.holds(s[0]));
        assert forall|i: int| 0 <= i < lo - 1 implies class.holds(#[trigger] rest[i]) by {
            assert(class.holds(s[i + 1]));
        }
        lemma_trim_front(rest, class, lo - 1);
        assert(rest.skip(lo - 1) =~= s.skip(lo));
    }
}

proof fn lemma_trim_back(s: Seq<char>, class: CharClass, hi: int)
    requires
        0 <= hi <= s.len(),
        forall|i: int| hi <= i < s.len() ==> class.holds(#[trigger] s[i]),
        hi > 0 ==> !class.holds(s[hi - 1]),
    ensures
        text::trim_back(s, class) == s.take(hi),
    decreases s.len() - hi,
{
    if hi == s.len() {
        assert(s.take(hi) =~= s);
    } else {
        let rest = s.drop_last();
        assert(class.holds(s[s.len() - 1]));
        assert forall|i: int| hi <= i < rest.len() implies class.holds(#[trigger] rest[i]) by {
            assert(class.holds(s[i]));
        }
        lemma_trim_back(rest, class, hi);
        assert(rest.take(hi) =~= s.take(hi));
    }
}

/// Trimming takes away exactly what of a class stands around a text: nothing where the text starts
/// and ends with other characters.
pub proof fn law_trim(before: Seq<char>, s: Seq<char>, after: Seq<char>, class: CharClass)
    requires
        forall|i: int| 0 <= i < before.len() ==> class.holds(#[trigger] before[i]),
        forall|i: int| 0 <= i < after.len() ==> class.holds(#[trigger] after[i]),
        s.len() > 0 ==> !class.holds(s[0]) && !class.holds(s.last()),
    ensures
        text::trim(before + s + after, class) == s,
        s.len() > 0 ==> text::trim_front(before + s + after, class) == s + after,
{
    let whole = before + s + after;
    if s.len() > 0 {
        let lo = before.len() as int;
        assert forall|i: int| 0 <= i < lo implies class.holds(#[trigger] whole[i]) by {
            assert(class.holds(before[i]));
        }
        lemma_trim_front(whole, class, lo);
        let rest = whole.skip(lo);
        assert(rest =~= s + after);
        assert forall|i: int| s.len() <= i < rest.len() implies class.holds(#[trigger] rest[i]) by {
            assert(class.holds(after[i - s.len()]));
        }
        lemma_trim_back(rest, class, s.len() as int);
        assert(rest.take(s.len() as int) =~= s);
    } else {
        assert forall|i: int| 0 <= i < whole.len() implies class.holds(#[trigger] whole[i]) by {
            if i < before.len() {
                assert(class.holds(before[i]));
            } else {
                assert(class.holds(after[i - before.len()]));
            }
        }
        lemma_trim_front(whole, class, whole.len() as int);
        assert(text::trim(whole, class) =~= s);
    }
}

/// What follows a prefix is what was put behind it, and only a text that starts so has it.
pub proof fn law_after_prefix(s: Seq<char>, prefix: Seq<char>)
    ensures
        text::after_prefix(prefix + s, prefix) == Some(s),
        text::after_prefix(s, prefix) is Some ==> s == prefix + text::after_prefix(s, prefix)->0,
{
    assert((prefix + s).take(prefix.len() as int) =~= prefix);
    assert((prefix + s).skip(prefix.len() as int) =~= s);
    if prefix.is_prefix_of(s) {
        assert(s =~= prefix + s.skip(prefix.len() as int));
    }
}

/// A prefix is taken away as often as it stands there, and nothing more.
pub proof fn law_trim_prefix(s: Seq<char>, prefix: Seq<char>)
    requires
        prefix.len() > 0,
    ensures
        text::trim_prefix(prefix + s, prefix) == text::trim_prefix(s, prefix),
        !prefix.is_prefix_of(s) ==> text::trim_prefix(s, prefix) == s,
{
    assert((prefix + s).take(prefix.len() as int) =~= prefix);
    assert((prefix + s).skip(prefix.len() as int) =~= s);
}

/// A text without a line feed is one line, with or without its end. The end may have a carriage
/// return.
pub proof fn law_one_line(s: Seq<char>)
    requires
        forall|i: int| 0 <= i < s.len() ==> #[trigger] s[i] != '\n',
    ensures
        s.len() > 0 ==> text::lines(s) == seq![s],
        s.len() == 0 ==> text::lines(s).len() == 0,
        s.len() == 0 || s.last() != '\r' ==> text::lines(s.push('\n')) == seq![s],
        text::lines(s.push('\r').push('\n')) == seq![s],
{
    let nl = |c: char| c == '\n';
    let n = s.len() as int;
    assert(text::lines(Seq::empty()) =~= Seq::empty());
    if s.len() > 0 {
        seqs::lemma_first_where(s, nl);
    }
    let ended = s.push('\n');
    assert forall|i: int| 0 <= i < s.len() implies !nl(#[trigger] ended[i]) by {
        assert(s[i] != '\n');
    }
    assert(nl(ended[s.len() as int]));
    seqs::lemma_is_first(ended, nl, s.len() as int);
    assert(ended.take(s.len() as int) =~= s);
    assert(ended.skip(n + 1) =~= Seq::empty());
    if s.len() == 0 || s.last() != '\r' {
        assert(text::lines(ended) =~= seq![s]);
    }
    let returned = s.push('\r').push('\n');
    assert forall|i: int| 0 <= i < n + 1 implies !nl(#[trigger] returned[i]) by {
        if i < s.len() {
            assert(s[i] != '\n');
        }
    }
    assert(nl(returned[n + 1]));
    seqs::lemma_is_first(returned, nl, n + 1);
    assert(returned.take(n + 1) =~= s.push('\r'));
    assert(returned.skip(n + 2) =~= Seq::empty());
    assert(s.push('\r').drop_last() =~= s);
    assert(text::lines(returned) =~= seq![s]);
}

/// Replacing a character changes it wherever it stands, and nothing else.
pub proof fn law_replaced(s: Seq<char>, from: char, to: char)
    ensures
        text::replaced(s, from, to).len() == s.len(),
        forall|i: int|
            0 <= i < s.len() && s[i] == from ==> #[trigger] text::replaced(s, from, to)[i] == to,
        forall|i: int|
            0 <= i < s.len() && s[i] != from ==> #[trigger] text::replaced(s, from, to)[i] == s[i],
{
}

/// Texts are the same but for case exactly where they are the same in lower case: so is a text and
/// its own lower case.
pub proof fn law_case_does_not_count(a: Seq<char>, b: Seq<char>)
    ensures
        text::same_ignoring_case(a, b) <==> text::ascii_lowered(a) == text::ascii_lowered(b),
        text::same_ignoring_case(text::ascii_lowered(a), a),
        text::ascii_lowered(a).len() == a.len(),
        forall|i: int|
            0 <= i < a.len() && 'A' <= a[i] <= 'Z' ==> (
            #[trigger] text::ascii_lowered(a)[i]) as u32 == a[i] as u32 + 32,
        forall|i: int|
            0 <= i < a.len() && !('A' <= a[i] <= 'Z') ==> #[trigger] text::ascii_lowered(a)[i]
                == a[i],
{
    let x = text::ascii_lowered(a);
    let y = text::ascii_lowered(b);
    assert forall|i: int| 0 <= i < a.len() implies #[trigger] x[i] == text::ascii_lower(a[i]) by {}
    assert forall|i: int| 0 <= i < b.len() implies #[trigger] y[i] == text::ascii_lower(b[i]) by {}
    if x == y {
        assert(a.len() == x.len() && b.len() == y.len());
        assert forall|i: int| 0 <= i < a.len() implies text::ascii_lower(#[trigger] a[i])
            == text::ascii_lower(b[i]) by {
            assert(x[i] == text::ascii_lower(a[i]));
            assert(y[i] == text::ascii_lower(b[i]));
        }
    }
    assert forall|i: int| 0 <= i < a.len() && !('A' <= a[i] <= 'Z') implies #[trigger] x[i]
        == a[i] by {
        law_letter_case(a[i]);
    }
    if text::same_ignoring_case(a, b) {
        assert forall|i: int| 0 <= i < x.len() implies x[i] == y[i] by {
            assert(text::ascii_lower(a[i]) == text::ascii_lower(b[i]));
        }
        assert(x =~= y);
    }
    assert forall|i: int| 0 <= i < x.len() implies text::ascii_lower(#[trigger] x[i])
        == text::ascii_lower(a[i]) by {
        law_letter_case(a[i]);
    }
}

/// The first characters in which two texts differ say which goes first; a text goes before
/// everything that it starts.
pub proof fn law_text_order(s: Seq<char>, c: char, d: char, x: Seq<char>, y: Seq<char>)
    ensures
        text::text_le(s, s + x),
        x.len() > 0 ==> !text::text_le(s + x, s),
        (c as u32) < (d as u32) ==> text::text_le(s + seq![c] + x, s + seq![d] + y),
        (c as u32) < (d as u32) ==> !text::text_le(s + seq![d] + y, s + seq![c] + x),
    decreases s.len(),
{
    let a = s + seq![c] + x;
    let b = s + seq![d] + y;
    if s.len() > 0 {
        let rest = s.drop_first();
        law_text_order(rest, c, d, x, y);
        assert((s + x).drop_first() =~= rest + x);
        assert(a.drop_first() =~= rest + seq![c] + x);
        assert(b.drop_first() =~= rest + seq![d] + y);
    }
}

/// What goes first stands before the rest, and each part goes by its texts. What agrees in both
/// stays as it came.
pub proof fn law_sorted(keys: Seq<SortKeyView>, order: Seq<usize>, i: int, j: int)
    requires
        order::is_order(keys, order),
        0 <= i < j < order.len(),
    ensures
        ({
            let a = keys[order[i] as int];
            let b = keys[order[j] as int];
            &&& order.len() == keys.len()
            &&& b.first ==> a.first
            &&& a.first == b.first ==> text::text_le(a.text, b.text)
            &&& a.first == b.first && a.text == b.text ==> order[i] < order[j]
        }),
{
    let x = order[i] as int;
    let y = order[j] as int;
    assert(order::goes_before(keys, x, y));
    text::lemma_text_le_reflexive(keys[x].text);
}

/// The decimal digits of a number write that number, without a zero in front.
pub proof fn law_decimal(n: nat)
    ensures
        text::decimal(n).len() > 0,
        text::all_digits(text::decimal(n)),
        text::digits_value(text::decimal(n)) == n,
        n > 0 ==> text::decimal(n)[0] != '0',
    decreases n,
{
    if n < 10 {
        let s = text::decimal(n);
        assert(s.drop_last() =~= Seq::empty());
        assert(text::digits_value(s.drop_last()) == 0);
    } else {
        law_decimal(n / 10);
        let s = text::decimal(n);
        assert(s.drop_last() =~= text::decimal(n / 10));
        assert forall|i: int| 0 <= i < s.len() implies text::is_digit(#[trigger] s[i]) by {
            if i < s.len() - 1 {
                assert(s[i] == text::decimal(n / 10)[i]);
            }
        }
    }
}

/// A number that was written in decimal is read again.
pub proof fn law_number_is_read(n: nat)
    ensures
        n <= i64::MAX ==> text::parsed_number(text::decimal(n)) == Some(n as i64),
        n > i64::MAX ==> text::parsed_number(text::decimal(n)) is None,
{
    law_decimal(n);
}

/// A text is read as a number exactly where it consists of digits, at least one, and the number
/// fits.
pub proof fn law_what_is_read(s: Seq<char>)
    ensures
        s.len() == 0 ==> text::parsed_number(s) is None,
        forall|i: int|
            0 <= i < s.len() && ((#[trigger] s[i] as u32) < 0x30 || s[i] as u32 > 0x39)
                ==> text::parsed_number(s) is None,
        s.len() > 0 && (forall|i: int|
            0 <= i < s.len() ==> 0x30 <= (#[trigger] s[i]) as u32 <= 0x39) && text::digits_value(s)
            <= i64::MAX ==> text::parsed_number(s) == Some(text::digits_value(s) as i64),
{
    assert forall|i: int|
        0 <= i < s.len() && ((#[trigger] s[i] as u32) < 0x30 || s[i] as u32 > 0x39) implies
        text::parsed_number(s) is None by {
        assert(!text::is_digit(s[i]));
    }
}

/// Digits stand for ten times what is in front of the last one, and the last one.
pub proof fn law_digits(s: Seq<char>, d: nat)
    requires
        d < 10,
    ensures
        text::digits_value(Seq::empty()) == 0,
        text::digits_value(s.push(text::digit_char(d))) == 10 * text::digits_value(s) + d,
{
    assert(s.push(text::digit_char(d)).drop_last() =~= s);
}

/// The last component of a path is what follows its last separator, with or without separators at
/// the end.
pub proof fn law_path_name(dir: Seq<char>, name: Seq<char>)
    requires
        name.len() > 0,
        forall|i: int| 0 <= i < name.len() ==> #[trigger] name[i] != '/',
        name != "."@,
        name != ".."@,
    ensures
        text::path_name(name) == Some(name),
        text::path_name(dir + "/"@ + name) == Some(name),
        text::path_name(dir + "/"@ + name + "/"@) == Some(name),
        text::path_name(dir + "/"@ + name + "/."@) == Some(name),
{
    reveal_strlit("/");
    reveal_strlit("/.");
    reveal_strlit(".");
    let whole = dir + "/"@ + name;
    if name.len() == 1 && name[0] == '.' {
        assert(name =~= "."@);
    }
    assert(name[name.len() - 1] != '/');
    if name.len() > 1 {
        assert(name[name.len() - 2] != '/');
    }
    assert(text::trim_path(name) == name);
    assert(text::trim_path(whole) == whole);
    lemma_after_slash(Seq::empty(), name);
    assert(Seq::<char>::empty() + name =~= name);
    lemma_after_slash(dir + "/"@, name);
    let once = whole + "/"@;
    assert(once.drop_last() =~= whole);
    assert(text::trim_path(once) == whole);
    let twice = whole + "/."@;
    assert(twice.drop_last() =~= once);
    assert(text::trim_path(twice) == whole);
}

/// A path has no last component where it consists of separators, or ends in the one for the
/// directory above.
pub proof fn law_no_path_name(dir: Seq<char>, slashes: Seq<char>)
    requires
        forall|i: int| 0 <= i < slashes.len() ==> #[trigger] slashes[i] == '/',
    ensures
        text::path_name(slashes) is None,
        text::path_name(".."@) is None,
        text::path_name("."@) is None,
        text::path_name(dir + "/.."@) is None,
{
    reveal_strlit("..");
    reveal_strlit(".");
    reveal_strlit("/..");
    lemma_only_slashes(slashes);
    let none = Seq::<char>::empty();
    assert(text::trim_path("."@) == "."@);
    assert(text::trim_path(".."@) == ".."@);
    assert forall|i: int| 0 <= i < ".."@.len() implies #[trigger] ".."@[i] != '/' by {}
    assert forall|i: int| 0 <= i < "."@.len() implies #[trigger] "."@[i] != '/' by {}
    lemma_after_slash(none, ".."@);
    assert(none + ".."@ =~= ".."@);
    lemma_after_slash(none, "."@);
    assert(none + "."@ =~= "."@);
    let whole = dir + "/.."@;
    assert(text::trim_path(whole) == whole);
    assert(whole =~= dir.push('/') + ".."@);
    lemma_after_slash(dir.push('/'), ".."@);
}

proof fn lemma_only_slashes(slashes: Seq<char>)
    requires
        forall|i: int| 0 <= i < slashes.len() ==> #[trigger] slashes[i] == '/',
    ensures
        text::trim_path(slashes).len() == 0,
    decreases slashes.len(),
{
    if slashes.len() > 0 {
        let rest = slashes.drop_last();
        assert(slashes[slashes.len() - 1] == '/');
        assert forall|i: int| 0 <= i < rest.len() implies #[trigger] rest[i] == '/' by {
            assert(slashes[i] == '/');
        }
        lemma_only_slashes(rest);
    }
}

proof fn lemma_after_slash(front: Seq<char>, name: Seq<char>)
    requires
        front.len() == 0 || front.last() == '/',
        forall|i: int| 0 <= i < name.len() ==> #[trigger] name[i] != '/',
    ensures
        text::after_slash(front + name) == name,
    decreases name.len(),
{
    if name.len() == 0 {
        assert(front + name =~= front);
    } else {
        lemma_after_slash(front, name.drop_last());
        assert((front + name).drop_last() =~= front + name.drop_last());
        assert((front + name).last() == name.last());
        assert(name[name.len() - 1] != '/');
        assert(name.drop_last().push(name.last()) =~= name);
    }
}

// ---------------------------------------------------------------------------------------------
// Lines with records
// ---------------------------------------------------------------------------------------------

/// The record on a line is the line without the white space around it; a line of white space has
/// none.
pub proof fn law_record_on_line(before: Seq<char>, s: Seq<char>, after: Seq<char>)
    requires
        forall|i: int| 0 <= i < before.len() ==> text::is_white(#[trigger] before[i]),
        forall|i: int| 0 <= i < after.len() ==> text::is_white(#[trigger] after[i]),
        s.len() > 0 ==> !text::is_white(s[0]) && !text::is_white(s.last()),
    ensures
        s.len() > 0 ==> parser::line_record(before + s + after) == Some(s),
        s.len() == 0 ==> parser::line_record(before + s + after) is None,
{
    let class = CharClass::Space;
    assert forall|i: int| 0 <= i < before.len() implies class.holds(#[trigger] before[i]) by {
        assert(text::is_white(before[i]));
    }
    assert forall|i: int| 0 <= i < after.len() implies class.holds(#[trigger] after[i]) by {
        assert(text::is_white(after[i]));
    }
    law_trim(before, s, after, class);
}

// ---------------------------------------------------------------------------------------------
// Blocks
// ---------------------------------------------------------------------------------------------

/// The events of blocks in two pieces are those of the first piece, followed by those of the
/// second.
pub proof fn law_blocks_in_pieces(a: Seq<ContentBlock>, b: Seq<ContentBlock>)
    ensures
        parser::block_events(a + b) == parser::block_events(a) + parser::block_events(b),
    decreases b.len(),
{
    if b.len() == 0 {
        assert(a + b =~= a);
        assert(parser::block_events(a) + parser::block_events(b) =~= parser::block_events(a));
    } else {
        law_blocks_in_pieces(a, b.drop_last());
        assert((a + b).drop_last() =~= a + b.drop_last());
        assert((a + b).last() == b.last());
        assert(parser::block_events(a + b) =~= parser::block_events(a) + parser::block_events(b));
    }
}

proof fn lemma_one_block(block: ContentBlock)
    ensures
        parser::block_events(seq![block]) == parser::at_most_one(parser::block_meaning(block)),
{
    let one = seq![block];
    assert(one.drop_last() =~= Seq::empty());
    assert(one.last() == block);
    reveal_with_fuel(parser::block_events, 2);
    assert(parser::block_events(one) =~= parser::at_most_one(parser::block_meaning(block)));
}

/// Whether a block calls the tool that spawns a sub-agent.
pub open spec fn calls_task(block: ContentBlock) -> bool {
    block.block_type@ == "tool_use"@ && block.name is Some && block.name->0@ == "Task"@
}

/// A block that calls `Task` always gives one event: the spawning of a sub-agent by that call,
/// with the start of the prompt in the block's input.
pub proof fn law_task_block(block: ContentBlock)
    requires
        calls_task(block),
    ensures
        parser::block_events(seq![block]).len() == 1,
        ({
            let event = parser::block_events(seq![block])[0];
            &&& event is SpawnSubAgent
            &&& match block.id {
                Some(id) => event->task_tool_use_id == id@,
                None => event->task_tool_use_id.len() == 0,
            }
            &&& match block.input {
                Some(input) if parser::json_strings(input).contains_key("prompt"@) => {
                    let prompt = parser::json_strings(input)["prompt"@];
                    &&& event->prompt_summary.is_prefix_of(prompt)
                    &&& prompt.len() <= 80 ==> event->prompt_summary == prompt
                    &&& prompt.len() > 80 ==> event->prompt_summary.len() == 80
                },
                _ => event->prompt_summary.len() == 0,
            }
        }),
{
    lemma_one_block(block);
    if let Some(input) = block.input {
        if parser::json_strings(input).contains_key("prompt"@) {
            law_clip_length(parser::json_strings(input)["prompt"@], 80);
        }
    }
}

/// So many blocks that call `Task` give so many spawnings, each of its own call, in the order of
/// the blocks.
pub proof fn law_task_blocks(blocks: Seq<ContentBlock>)
    requires
        forall|i: int|
            0 <= i < blocks.len() ==> calls_task(#[trigger] blocks[i]) && blocks[i].id is Some,
    ensures
        parser::block_events(blocks).len() == blocks.len(),
        forall|i: int|
            0 <= i < blocks.len() ==> {
                let event = #[trigger] parser::block_events(blocks)[i];
                event is SpawnSubAgent && event->task_tool_use_id == blocks[i].id->0@
            },
    decreases blocks.len(),
{
    if blocks.len() > 0 {
        let front = blocks.drop_last();
        let last = blocks.last();
        assert forall|i: int| 0 <= i < front.len() implies calls_task(#[trigger] front[i])
            && front[i].id is Some by {
            assert(calls_task(blocks[i]));
        }
        assert(calls_task(blocks[blocks.len() - 1]));
        law_task_blocks(front);
        law_task_block(last);
        assert(front + seq![last] =~= blocks);
        law_blocks_in_pieces(front, seq![last]);
        assert forall|i: int| 0 <= i < blocks.len() implies ({
            let event = #[trigger] parser::block_events(blocks)[i];
            event is SpawnSubAgent && event->task_tool_use_id == blocks[i].id->0@
        }) by {
            if i < front.len() {
                assert(parser::block_events(blocks)[i] == parser::block_events(front)[i]);
                assert(front[i] == blocks[i]);
            } else {
                assert(parser::block_events(blocks)[i] == parser::block_events(seq![last])[0]);
            }
        }
    }
}

/// A block that uses another tool always gives one event: the call of that tool.
pub proof fn law_tool_block(block: ContentBlock)
    requires
        block.block_type@ == "tool_use"@,
        !calls_task(block),
    ensures
        parser::block_events(seq![block]).len() == 1,
        ({
            let event = parser::block_events(seq![block])[0];
            &&& event is ToolCall
            &&& match block.name {
                Some(name) => event->tool_name == name@ && event->tool_input_summary
                    == parser::input_summary(name@, block.input),
                None => event->tool_name.len() == 0 && event->tool_input_summary
                    == parser::input_summary(Seq::empty(), block.input),
            }
            &&& block.input is None ==> event->tool_input_summary.len() == 0
        }),
{
    lemma_one_block(block);
    reveal_strlit("Task");
    assert("Task"@.len() == 4);
    if block.name is None {
        assert(parser::or_empty(block.name.deep_view()) == Seq::<char>::empty());
    }
}

/// A block of text gives one event where the text is not blank, the response with the start of
/// the text, and none where it is. Every other block gives none.
pub proof fn law_text_and_other_blocks(block: ContentBlock)
    requires
        block.block_type@ != "tool_use"@,
    ensures
        ({
            let events = parser::block_events(seq![block]);
            if block.block_type@ == "text"@ && block.text is Some && exists|i: int|
                0 <= i < block.text->0@.len() && !text::is_white(#[trigger] block.text->0@[i]) {
                let whole = block.text->0@;
                &&& events.len() == 1
                &&& events[0] is TextResponse
                &&& events[0]->TextResponse_text.is_prefix_of(whole)
                &&& whole.len() <= 120 ==> events[0]->TextResponse_text == whole
                &&& whole.len() > 120 ==> events[0]->TextResponse_text.len() == 120
            } else {
                events.len() == 0
            }
        }),
{
    lemma_one_block(block);
    if block.text is Some {
        let whole = block.text->0@;
        law_clip_length(whole, 120);
        lemma_blank(whole);
    }
}

proof fn lemma_trim_front_blank(s: Seq<char>, class: CharClass)
    ensures
        text::trim_front(s, class).len() == 0 <==> (forall|i: int|
            0 <= i < s.len() ==> class.holds(#[trigger] s[i])),
        text::trim_front(s, class).len() > 0 ==> !class.holds(text::trim_front(s, class)[0]),
    decreases s.len(),
{
    if s.len() > 0 && class.holds(s[0]) {
        let rest = s.drop_first();
        lemma_trim_front_blank(rest, class);
        if forall|i: int| 0 <= i < rest.len() ==> class.holds(#[trigger] rest[i]) {
            assert forall|i: int| 0 <= i < s.len() implies class.holds(#[trigger] s[i]) by {
                if i > 0 {
                    assert(s[i] == rest[i - 1]);
                }
            }
        }
        if forall|i: int| 0 <= i < s.len() ==> class.holds(#[trigger] s[i]) {
            assert forall|i: int| 0 <= i < rest.len() implies class.holds(#[trigger] rest[i]) by {
                assert(class.holds(s[i + 1]));
            }
        }
    }
}

proof fn lemma_trim_back_kept(s: Seq<char>, class: CharClass)
    requires
        s.len() > 0,
        !class.holds(s[0]),
    ensures
        text::trim_back(s, class).len() > 0,
    decreases s.len(),
{
    if class.holds(s.last()) {
        lemma_trim_back_kept(s.drop_last(), class);
    }
}

proof fn lemma_blank(s: Seq<char>)
    ensures
        parser::line_record(s) is Some <==> exists|i: int|
            0 <= i < s.len() && !text::is_white(#[trigger] s[i]),
{
    let class = CharClass::Space;
    lemma_trim_front_blank(s, class);
    let front = text::trim_front(s, class);
    if front.len() > 0 {
        lemma_trim_back_kept(front, class);
    }
    if exists|i: int| 0 <= i < s.len() && !text::is_white(#[trigger] s[i]) {
        let i = choose|i: int| 0 <= i < s.len() && !text::is_white(#[trigger] s[i]);
        assert(!class.holds(s[i]));
    } else {
        assert forall|i: int| 0 <= i < s.len() implies class.holds(#[trigger] s[i]) by {
            assert(text::is_white(s[i]));
        }
    }
}

/// What is shown of a tool's input is the start of its telling member: the command of a shell
/// call, the path of a file call, the pattern of a search. Of every other tool it is the start of
/// the whole input.
pub proof fn law_input_summary(tool: Seq<char>, input: serde_json::Value)
    ensures
        ({
            let shown = parser::input_summary(tool, Some(input));
            let members = parser::json_strings(input);
            let is_file = tool == "Read"@ || tool == "Write"@ || tool == "Edit"@ || tool
                == "MultiEdit"@;
            let is_search = tool == "Glob"@ || tool == "Grep"@;
            &&& shown.len() <= 60
            &&& tool == "Bash"@ ==> shows_member(shown, members, "command"@)
            &&& is_file ==> shows_member(shown, members, "file_path"@)
            &&& is_search ==> shows_member(shown, members, "pattern"@)
            &&& tool != "Bash"@ && !is_file && !is_search ==> starts(
                shown,
                parser::json_text(input),
            )
        }),
{
    reveal_strlit("Bash");
    reveal_strlit("Read");
    reveal_strlit("Write");
    reveal_strlit("Edit");
    reveal_strlit("MultiEdit");
    reveal_strlit("Glob");
    reveal_strlit("Grep");
    assert("Bash"@[0] != "Read"@[0]);
    assert("Bash"@[0] != "Write"@[0]);
    assert("Bash"@[0] != "Edit"@[0]);
    assert("Bash"@[0] != "MultiEdit"@[0]);
    assert("Bash"@[0] != "Glob"@[0]);
    assert("Glob"@[0] != "Read"@[0]);
    assert("Glob"@[0] != "Write"@[0]);
    assert("Glob"@[0] != "Edit"@[0]);
    assert("Glob"@[0] != "MultiEdit"@[0]);
    assert("Grep"@[0] != "Bash"@[0]);
    assert("Grep"@[0] != "Read"@[0]);
    assert("Grep"@[0] != "Write"@[0]);
    assert("Grep"@[0] != "Edit"@[0]);
    assert("Grep"@[0] != "MultiEdit"@[0]);
    let members = parser::json_strings(input);
    law_clip_length(parser::json_text(input), 60);
    law_clip_length(members["command"@], 60);
    law_clip_length(members["file_path"@], 60);
    law_clip_length(members["pattern"@], 60);
}

/// `shown` is the start of `whole`: all of it, or sixty characters.
pub open spec fn starts(shown: Seq<char>, whole: Seq<char>) -> bool {
    &&& shown.is_prefix_of(whole)
    &&& shown == whole || shown.len() == 60
}

/// `shown` is the start of a member, or nothing where there is no such member.
pub open spec fn shows_member(
    shown: Seq<char>,
    members: Map<Seq<char>, Seq<char>>,
    key: Seq<char>,
) -> bool {
    if members.contains_key(key) {
        starts(shown, members[key])
    } else {
        shown.len() == 0
    }
}

// ---------------------------------------------------------------------------------------------
// Records
// ---------------------------------------------------------------------------------------------

/// What one record says: an assistant's message all that its blocks say, a tool result that the
/// tool ended well, and a result that the session ended, with an error only where it says so.
/// No other record says anything.
pub proof fn law_one_record(record: Record)
    ensures
        ({
            let events = parser::events_of(seq![record]);
            match record.record_type {
                RecordType::Assistant => match record.message {
                    Some(
                        Message { content: Some(MessageContent::Blocks(blocks)), .. },
                    ) => events == parser::block_events(blocks@),
                    _ => events.len() == 0,
                },
                RecordType::ToolResult => events.len() == 1 && events[0]
                    == (AgentEventView::ToolResult { is_error: false }),
                RecordType::Result => {
                    &&& events.len() == 1
                    &&& events[0] is Completed
                    &&& events[0]->Completed_is_error <==> record.is_error == Some(true)
                },
                _ => events.len() == 0,
            }
        }),
{
    let one = seq![record];
    assert(one.drop_last() =~= Seq::empty());
    assert(one.last() == record);
    reveal_with_fuel(parser::events_of, 2);
    assert(parser::events_of(one) =~= parser::record_events(record));
}

} // verus!
