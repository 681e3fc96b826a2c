//! What the terminal shows and how the user's answers are read: response
//! formatting with Codex-style bullets, the separator rule, prompts,
//! confirmations, the API key check and the model menu.
use vstd::prelude::*;

use crate::text::{
    blank, chars_of, decimal, has_prefix, hex, hex_digit, is_blank, is_white_space, leading_ws, lemma_leading_ws,
    lemma_lines_are_single, lemma_lines_of_unlines, line_spans, lines, owned, push_char,
    push_decimal, push_hex, push_range, range_has_prefix, single_line, skip_white_space,
    span_text, str_equals, trim, trim_start, trimmed, unlines,
};

verus! {

/// The box-drawing character of the separator rule.
pub open spec fn rule_char() -> char {
    '\u{2500}'
}

/// A rule `width` characters wide (at least one).
pub open spec fn rule(width: nat) -> Seq<char> {
    Seq::new(if width == 0 { 1 } else { width }, |i: int| rule_char())
}

/// The separator line for a terminal `width` columns wide.
pub fn separator(width: u16) -> (r: String)
    ensures
        r@ == rule(width as nat),
{
    let n: u16 = if width == 0 {
        1
    } else {
        width
    };
    let mut s = String::new();
    let mut i: u16 = 0;
    while i < n
        invariant
            i <= n,
            n == if width == 0 {
                1
            } else {
                width
            },
            s@ == Seq::new(i as nat, |j: int| rule_char()),
        decreases n - i,
    {
        push_char(&mut s, '\u{2500}');
        i = i + 1;
        assert(s@ =~= Seq::new(i as nat, |j: int| rule_char()));
    }
    s
}

/// An ASCII digit.
pub open spec fn is_ascii_digit(c: char) -> bool {
    '0' <= c <= '9'
}

/// A line that already opens a Markdown block: a heading, a quote, a list
/// item, a code fence or a numbered item (after leading whitespace).
pub open spec fn opens_block(line: Seq<char>) -> bool {
    let t = trim_start(line);
    ||| has_prefix(t, "#"@)
    ||| has_prefix(t, ">"@)
    ||| has_prefix(t, "- "@)
    ||| has_prefix(t, "* "@)
    ||| has_prefix(t, "+ "@)
    ||| has_prefix(t, "```"@)
    ||| (t.len() > 0 && is_ascii_digit(t[0]))
}

fn range_opens_block(v: &Vec<char>, lo: usize, hi: usize) -> (r: bool)
    requires
        lo <= hi <= v.len(),
    ensures
        r == opens_block(v@.subrange(lo as int, hi as int)),
{
    let k = skip_white_space(v, lo, hi);
    assert(v@.subrange(lo as int, hi as int).skip(k - lo) =~= v@.subrange(k as int, hi as int));
    range_has_prefix(v, k, hi, "#") || range_has_prefix(v, k, hi, ">") || range_has_prefix(
        v,
        k,
        hi,
        "- ",
    ) || range_has_prefix(v, k, hi, "* ") || range_has_prefix(v, k, hi, "+ ")
        || range_has_prefix(v, k, hi, "```") || (k < hi && '0' <= v[k] && v[k] <= '9')
}

/// Whether `line` already opens a Markdown block.
pub fn is_markdown_block(line: &str) -> (r: bool)
    ensures
        r == opens_block(line@),
{
    let v = chars_of(line);
    assert(v@.subrange(0, v.len() as int) =~= v@);
    range_opens_block(&v, 0, v.len())
}

/// The state carried from line to line while adding bullets.
pub struct Bullets {
    pub out: Seq<char>,
    pub in_code: bool,
    pub block_start: bool,
}

/// Nothing written yet; the first line starts a block.
pub open spec fn bullets_start() -> Bullets {
    Bullets { out: seq![], in_code: false, block_start: true }
}

/// A fence line toggles code mode.
pub open spec fn is_fence(line: Seq<char>) -> bool {
    has_prefix(trim_start(line), "```"@)
}

/// Code mode after reading `line`.
pub open spec fn code_after(st: Bullets, line: Seq<char>) -> bool {
    if is_fence(line) {
        !st.in_code
    } else {
        st.in_code
    }
}

/// Whether `line` gets a `"- "` bullet: the first non-blank line of a
/// paragraph that is prose, outside code.
pub open spec fn gets_bullet(st: Bullets, line: Seq<char>) -> bool {
    !is_blank(line) && st.block_start && !code_after(st, line) && !opens_block(line)
}

/// One line: an optional bullet, the line and a newline.
pub open spec fn bullet_step(st: Bullets, line: Seq<char>) -> Bullets {
    Bullets {
        out: st.out + (if gets_bullet(st, line) {
            "- "@
        } else {
            seq![]
        }) + line + seq!['\n'],
        in_code: code_after(st, line),
        block_start: is_blank(line),
    }
}

/// The lines processed in order.
pub open spec fn bullet_lines(ls: Seq<Seq<char>>) -> Bullets
    decreases ls.len(),
{
    if ls.len() == 0 {
        bullets_start()
    } else {
        bullet_step(bullet_lines(ls.drop_last()), ls.last())
    }
}

/// The Markdown that is rendered for a response.
pub open spec fn codex(markdown: Seq<char>) -> Seq<char> {
    bullet_lines(lines(markdown)).out
}

/// Gives each paragraph of prose a `"- "` bullet, as Codex does, and leaves
/// headings, quotes, lists, numbered items and code fences (and everything
/// inside code) as they are. Every line ends with a newline.
pub fn codex_markdown(markdown: &str) -> (r: String)
    ensures
        r@ == codex(markdown@),
{
    let v = chars_of(markdown);
    let spans = line_spans(&v);
    let ghost ls = lines(v@);
    let mut out = String::new();
    let mut in_code = false;
    let mut block_start = true;
    assert(ls.take(0) =~= Seq::<Seq<char>>::empty());
    for k in 0..spans.len()
        invariant
            v@ == markdown@,
            ls == lines(v@),
            spans@.len() == ls.len(),
            forall|j: int|
                0 <= j < spans@.len() ==> spans@[j].0 <= spans@[j].1 <= v.len() && span_text(
                    v@,
                    #[trigger] spans@[j],
                ) == ls[j],
            bullet_lines(ls.take(k as int)) == (Bullets { out: out@, in_code, block_start }),
    {
        let (lo, hi) = spans[k];
        let ghost line = ls[k as int];
        let ghost st = Bullets { out: out@, in_code, block_start };
        assert(span_text(v@, spans@[k as int]) == line);
        let k0 = skip_white_space(&v, lo, hi);
        assert(line.skip(k0 - lo) =~= v@.subrange(k0 as int, hi as int));
        if range_has_prefix(&v, k0, hi, "```") {
            in_code = !in_code;
        }
        let is_blank_line = blank(&v, lo, hi);
        if !is_blank_line && block_start && !in_code && !range_opens_block(&v, lo, hi) {
            out.append("- ");
        }
        push_range(&mut out, &v, lo, hi);
        push_char(&mut out, '\n');
        block_start = is_blank_line;
        proof {
            assert(ls.take(k + 1).drop_last() =~= ls.take(k as int));
            assert(out@ =~= bullet_step(st, line).out);
        }
    }
    assert(ls.take(ls.len() as int) =~= ls);
    out
}

/// What the shape of the output promises: a blank line, a line that opens a
/// Markdown block and any line inside a code fence are never given a
/// bullet; only prose at the start of a paragraph is.
pub proof fn lemma_bullets_only_on_prose(st: Bullets, line: Seq<char>)
    ensures
        is_blank(line) ==> !gets_bullet(st, line),
        opens_block(line) ==> !gets_bullet(st, line),
        code_after(st, line) ==> !gets_bullet(st, line),
        !st.block_start ==> !gets_bullet(st, line),
        bullet_step(st, line).out == st.out + (if gets_bullet(st, line) {
            "- "@
        } else {
            seq![]
        }) + line + seq!['\n'],
{
}

/// A line that already opens a Markdown block is written as it is, never
/// bulleted: after any leading whitespace, a heading `#`, a quote `>`, a
/// list item `- `, `* ` or `+ `, a code fence, or a digit (numbered item).
pub proof fn lemma_blocks_are_left_alone(st: Bullets, line: Seq<char>)
    requires
        ({
            let t = trim_start(line);
            &&& t.len() > 0
            &&& {
                ||| t[0] == '#'
                ||| t[0] == '>'
                ||| '0' <= t[0] <= '9'
                ||| (t.len() >= 2 && (t[0] == '-' || t[0] == '*' || t[0] == '+') && t[1] == ' ')
                ||| (t.len() >= 3 && t[0] == '`' && t[1] == '`' && t[2] == '`')
            }
        }),
    ensures
        !gets_bullet(st, line),
        bullet_step(st, line).out == st.out + line + seq!['\n'],
{
    reveal_strlit("#");
    reveal_strlit(">");
    reveal_strlit("- ");
    reveal_strlit("* ");
    reveal_strlit("+ ");
    reveal_strlit("```");
    let t = trim_start(line);
    if t[0] == '#' {
        assert(t.take(1) =~= "#"@);
    } else if t[0] == '>' {
        assert(t.take(1) =~= ">"@);
    } else if '0' <= t[0] <= '9' {
    } else if t.len() >= 2 && t[0] == '-' && t[1] == ' ' {
        assert(t.take(2) =~= "- "@);
    } else if t.len() >= 2 && t[0] == '*' && t[1] == ' ' {
        assert(t.take(2) =~= "* "@);
    } else if t.len() >= 2 && t[0] == '+' && t[1] == ' ' {
        assert(t.take(2) =~= "+ "@);
    } else {
        assert(t.take(3) =~= "```"@);
    }
    assert(opens_block(line));
    assert(st.out + Seq::<char>::empty() + line + seq!['\n'] =~= st.out + line + seq!['\n']);
}

/// The first line of a paragraph of prose, outside code, gets a `- `
/// bullet: a line whose first character after leading whitespace is a
/// letter, read at the start of a block and not inside a fence.
pub proof fn lemma_prose_is_bulleted(st: Bullets, line: Seq<char>)
    requires
        st.block_start,
        !st.in_code,
        trim_start(line).len() > 0,
        ('a' <= trim_start(line)[0] <= 'z') || ('A' <= trim_start(line)[0] <= 'Z'),
    ensures
        gets_bullet(st, line),
        bullet_step(st, line).out == st.out + "- "@ + line + seq!['\n'],
{
    reveal_strlit("#");
    reveal_strlit(">");
    reveal_strlit("- ");
    reveal_strlit("* ");
    reveal_strlit("+ ");
    reveal_strlit("```");
    let t = trim_start(line);
    let k = leading_ws(line) as int;
    lemma_leading_ws(line);
    assert(t[0] == line[k]);
    assert(!is_white_space(line[k]));
    assert(!is_blank(line));
    assert(t.take(1)[0] == t[0]);
    if t.len() >= 2 {
        assert(t.take(2)[0] == t[0]);
    }
    if t.len() >= 3 {
        assert(t.take(3)[0] == t[0]);
    }
    assert(!opens_block(line));
    assert(!is_fence(line));
}

/// The answer to the `/model` menu: an answer that is empty after trimming
/// keeps the current model, whatever models are listed; `0` and `1` pick
/// the first listed model; and whatever the answer picks is the current
/// model or a listed one.
pub proof fn lemma_menu_answer(models: Seq<Seq<char>>, current: Seq<char>, answer: Seq<char>)
    ensures
        trim(answer).len() == 0 ==> chosen_model(models, current, answer) == Some(current),
        models.len() > 0 && (trim(answer) == "0"@ || trim(answer) == "1"@) ==> chosen_model(
            models,
            current,
            answer,
        ) == Some(models[0]),
        chosen_model(models, current, answer) matches Some(m) ==> m == current || models.contains(m),
{
    reveal_strlit("0");
    reveal_strlit("1");
    let c = trim(answer);
    if c == "0"@ || c == "1"@ {
        assert(c.len() == 1);
        assert(unsigned_digits(c) == c);
        assert(all_digits(c));
        assert(c.drop_last() =~= Seq::<char>::empty());
        assert(digits_value(c) == digits_value(c.drop_last()) * 10 + ((c.last() as u32) - 48) as nat);
    }
    match chosen_model(models, current, answer) {
        Some(m) => {
            if c.len() > 0 {
                let n = parsed_usize(c)->0;
                let i = if n == 0 { 0 } else { n - 1 };
                assert(models[i as int] == m);
                assert(models.contains(m));
            }
        },
        None => {},
    }
}

/// A line as it is written after state `st`: with its bullet, if it gets
/// one.
pub open spec fn primed_line(st: Bullets, line: Seq<char>) -> Seq<char> {
    if gets_bullet(st, line) {
        "- "@ + line
    } else {
        line
    }
}

/// The lines as they are written, bullets included.
pub open spec fn primed(ls: Seq<Seq<char>>) -> Seq<Seq<char>>
    decreases ls.len(),
{
    if ls.len() == 0 {
        seq![]
    } else {
        primed(ls.drop_last()).push(primed_line(bullet_lines(ls.drop_last()), ls.last()))
    }
}

/// A bulleted line is not blank, opens a block and is no fence.
proof fn lemma_bulleted_line(line: Seq<char>)
    ensures
        trim_start("- "@ + line) == "- "@ + line,
        !is_blank("- "@ + line),
        opens_block("- "@ + line),
        !is_fence("- "@ + line),
{
    reveal_strlit("- ");
    reveal_strlit("```");
    let p = "- "@ + line;
    assert(p[0] == '-');
    assert(!is_white_space(p[0]));
    assert(leading_ws(p) == 0);
    assert(trim_start(p) =~= p);
    assert(p.take(2) =~= "- "@);
    if p.len() >= 3 {
        assert(p.take(3)[0] == '-');
    }
}

/// Reading a line again as it was written, from a state with the same
/// flags, adds no second bullet and leaves the flags as reading the line
/// itself did.
proof fn lemma_step_again(st: Bullets, st2: Bullets, line: Seq<char>)
    requires
        st2.in_code == st.in_code,
        st2.block_start == st.block_start,
    ensures
        bullet_step(st, line).out == st.out + primed_line(st, line) + seq!['\n'],
        bullet_step(st2, primed_line(st, line)).out == st2.out + primed_line(st, line) + seq!['\n'],
        bullet_step(st2, primed_line(st, line)).in_code == bullet_step(st, line).in_code,
        bullet_step(st2, primed_line(st, line)).block_start == bullet_step(st, line).block_start,
{
    reveal_strlit("- ");
    reveal_strlit("```");
    let p = primed_line(st, line);
    if gets_bullet(st, line) {
        lemma_bulleted_line(line);
        assert(!is_fence(line));
        assert(!gets_bullet(st2, p));
        assert(st.out + "- "@ + line + seq!['\n'] =~= st.out + p + seq!['\n']);
        assert(st2.out + Seq::<char>::empty() + p + seq!['\n'] =~= st2.out + p + seq!['\n']);
    } else {
        assert(st.out + Seq::<char>::empty() + line + seq!['\n'] =~= st.out + p + seq!['\n']);
        assert(st2.out + Seq::<char>::empty() + p + seq!['\n'] =~= st2.out + p + seq!['\n']);
    }
}

/// The output is the written lines, and reading them again gives the same
/// output and ends in the same state.
proof fn lemma_primed(ls: Seq<Seq<char>>)
    ensures
        primed(ls).len() == ls.len(),
        forall|i: int|
            0 <= i < ls.len() ==> #[trigger] primed(ls)[i] == ls[i] || primed(ls)[i] == "- "@
                + ls[i],
        bullet_lines(ls).out == unlines(primed(ls)),
        bullet_lines(primed(ls)).out == unlines(primed(ls)),
        bullet_lines(primed(ls)).in_code == bullet_lines(ls).in_code,
        bullet_lines(primed(ls)).block_start == bullet_lines(ls).block_start,
    decreases ls.len(),
{
    if ls.len() == 0 {
        assert(primed(ls) =~= Seq::<Seq<char>>::empty());
    } else {
        let init = ls.drop_last();
        lemma_primed(init);
        let p = primed(ls);
        assert(p.drop_last() =~= primed(init));
        lemma_step_again(bullet_lines(init), bullet_lines(primed(init)), ls.last());
        assert forall|i: int| 0 <= i < ls.len() implies #[trigger] p[i] == ls[i] || p[i] == "- "@
            + ls[i] by {
            if i < init.len() {
                assert(p[i] == primed(init)[i]);
                assert(ls[i] == init[i]);
            }
        }
    }
}

/// Formatting twice is formatting once, for text without carriage
/// returns: bullets are added once, and lines that already have one are
/// left alone.
pub proof fn lemma_codex_idempotent(markdown: Seq<char>)
    requires
        forall|i: int| 0 <= i < markdown.len() ==> markdown[i] != '\r',
    ensures
        codex(codex(markdown)) == codex(markdown),
{
    reveal_strlit("- ");
    let ls = lines(markdown);
    lemma_lines_are_single(markdown);
    lemma_primed(ls);
    let p = primed(ls);
    assert forall|i: int| 0 <= i < p.len() implies single_line(#[trigger] p[i]) by {
        assert(single_line(ls[i]));
        if p[i] != ls[i] {
            let q = "- "@ + ls[i];
            assert(p[i] == q);
            assert forall|j: int| 0 <= j < q.len() implies q[j] != '\n' by {
                if j >= 2 {
                    assert(q[j] == ls[i][j - 2]);
                }
            }
            if ls[i].len() > 0 {
                assert(q.last() == ls[i].last());
            }
        }
    }
    lemma_lines_of_unlines(p);
}

/// The answer accepts: `y` or `Y` after trimming.
pub open spec fn is_yes(answer: Seq<char>) -> bool {
    trim(answer) == "y"@ || trim(answer) == "Y"@
}

/// Only a lone `y` or `Y` approves: after trimming, the answer is exactly
/// one character, and that character is `y` or `Y`; anything else, an
/// empty answer included, declines.
pub proof fn lemma_only_y_approves(answer: Seq<char>)
    ensures
        is_yes(answer) <==> (trim(answer).len() == 1 && (trim(answer)[0] == 'y' || trim(
            answer,
        )[0] == 'Y')),
{
    reveal_strlit("y");
    reveal_strlit("Y");
    let t = trim(answer);
    if t.len() == 1 && t[0] == 'y' {
        assert(t =~= "y"@);
    }
    if t.len() == 1 && t[0] == 'Y' {
        assert(t =~= "Y"@);
    }
}

/// Whether the user's answer to "Allow write to ...? [y/N]" allows the
/// write: only `y` or `Y` (surrounding whitespace ignored) does.
pub fn confirm_write(answer: &str) -> (r: bool)
    ensures
        r == is_yes(answer@),
{
    yes(answer)
}

/// Whether the user's answer to "Allow command? [y/N]" allows the shell
/// command: only `y` or `Y` (surrounding whitespace ignored) does.
pub fn confirm_shell(answer: &str) -> (r: bool)
    ensures
        r == is_yes(answer@),
{
    yes(answer)
}

fn yes(answer: &str) -> (r: bool)
    ensures
        r == is_yes(answer@),
{
    let t = trimmed(answer);
    str_equals(t.as_str(), "y") || str_equals(t.as_str(), "Y")
}

/// The question asked before a file is written.
pub fn write_question(path: &str) -> (r: String)
    ensures
        r@ == "Allow write to "@ + path@ + "? [y/N] "@,
{
    let mut s = owned("Allow write to ");
    s.append(path);
    s.append("? [y/N] ");
    s
}

/// The prompt shown before each request: `[model] > `.
pub fn prompt_label(model: &str) -> (r: String)
    ensures
        r@ == seq!['['] + model@ + "] > "@,
{
    let mut s = String::new();
    push_char(&mut s, '[');
    s.append(model);
    s.append("] > ");
    s
}

/// What `char::escape_default` writes for `c`.
pub open spec fn escaped_char(c: char) -> Seq<char> {
    if c == '\t' {
        seq!['\\', 't']
    } else if c == '\r' {
        seq!['\\', 'r']
    } else if c == '\n' {
        seq!['\\', 'n']
    } else if c == '\'' {
        seq!['\\', '\'']
    } else if c == '"' {
        seq!['\\', '"']
    } else if c == '\\' {
        seq!['\\', '\\']
    } else if 0x20 <= c as u32 <= 0x7e {
        seq![c]
    } else {
        seq!['\\', 'u', '{'] + hex(c as u32 as nat) + seq!['}']
    }
}

/// What `str::escape_default` writes for `s`.
pub open spec fn escaped(s: Seq<char>) -> Seq<char>
    decreases s.len(),
{
    if s.len() == 0 {
        seq![]
    } else {
        escaped(s.drop_last()) + escaped_char(s.last())
    }
}

/// A printable ASCII character.
pub open spec fn printable_ascii(c: char) -> bool {
    0x20 <= c as u32 <= 0x7e
}

proof fn lemma_hex_printable(n: nat)
    ensures
        forall|i: int| 0 <= i < hex(n).len() ==> printable_ascii(#[trigger] hex(n)[i]),
    decreases n,
{
    if n >= 16 {
        lemma_hex_printable(n / 16);
        let d = n % 16;
        assert(printable_ascii(hex_digit(d)));
        assert forall|i: int| 0 <= i < hex(n).len() implies printable_ascii(#[trigger] hex(n)[i]) by {
            if i < hex(n / 16).len() {
                assert(hex(n)[i] == hex(n / 16)[i]);
            }
        }
    } else {
        assert(printable_ascii(hex_digit(n)));
    }
}

proof fn lemma_escaped_char_printable(c: char)
    ensures
        forall|i: int| 0 <= i < escaped_char(c).len() ==> printable_ascii(#[trigger] escaped_char(c)[i]),
{
    if !(c == '\t' || c == '\r' || c == '\n' || c == '\'' || c == '"' || c == '\\' || 0x20
        <= c as u32 <= 0x7e) {
        lemma_hex_printable(c as u32 as nat);
        let h = hex(c as u32 as nat);
        assert forall|i: int| 0 <= i < escaped_char(c).len() implies printable_ascii(
            #[trigger] escaped_char(c)[i],
        ) by {
            if 3 <= i < 3 + h.len() {
                assert(escaped_char(c)[i] == h[i - 3]);
            }
        }
    }
}

/// A command shown for approval is one line of printable ASCII, so no
/// control character can hide what runs; and printable ASCII other than
/// quotes and backslashes is shown as it is.
pub proof fn lemma_escaped_is_printable(s: Seq<char>)
    ensures
        forall|i: int| 0 <= i < escaped(s).len() ==> printable_ascii(#[trigger] escaped(s)[i]),
        (forall|i: int|
            0 <= i < s.len() ==> printable_ascii(#[trigger] s[i]) && s[i] != '\'' && s[i] != '"'
                && s[i] != '\\') ==> escaped(s) == s,
    decreases s.len(),
{
    if s.len() > 0 {
        let init = s.drop_last();
        lemma_escaped_is_printable(init);
        lemma_escaped_char_printable(s.last());
        let a = escaped(init);
        let b = escaped_char(s.last());
        assert forall|i: int| 0 <= i < escaped(s).len() implies printable_ascii(#[trigger] escaped(s)[i]) by {
            if i < a.len() {
                assert(escaped(s)[i] == a[i]);
            } else {
                assert(escaped(s)[i] == b[i - a.len()]);
            }
        }
        if forall|i: int|
            0 <= i < s.len() ==> printable_ascii(#[trigger] s[i]) && s[i] != '\'' && s[i] != '"'
                && s[i] != '\\' {
            assert forall|i: int| 0 <= i < init.len() implies printable_ascii(#[trigger] init[i]) && init[i] != '\'' && init[i] != '"'
                && init[i] != '\\' by {
                assert(init[i] == s[i]);
            }
            assert(printable_ascii(s[s.len() - 1]));
            assert(s.last() != '\t' && s.last() != '\r' && s.last() != '\n');
            assert(escaped(s) =~= s);
        }
    } else {
        assert(escaped(s) =~= s);
    }
}

/// A shell command as it is shown for approval: control characters,
/// quotes, backslashes and non-ASCII characters escaped, so the user sees
/// exactly what will run.
pub fn escape_default(command: &str) -> (r: String)
    ensures
        r@ == escaped(command@),
{
    let v = chars_of(command);
    let mut s = String::new();
    let mut i: usize = 0;
    assert(v@.take(0) =~= Seq::<char>::empty());
    while i < v.len()
        invariant
            i <= v.len(),
            v@ == command@,
            s@ == escaped(v@.take(i as int)),
        decreases v.len() - i,
    {
        let c = v[i];
        let ghost before = s@;
        if c == '\t' {
            push_char(&mut s, '\\');
            push_char(&mut s, 't');
        } else if c == '\r' {
            push_char(&mut s, '\\');
            push_char(&mut s, 'r');
        } else if c == '\n' {
            push_char(&mut s, '\\');
            push_char(&mut s, 'n');
        } else if c == '\'' {
            push_char(&mut s, '\\');
            push_char(&mut s, '\'');
        } else if c == '"' {
            push_char(&mut s, '\\');
            push_char(&mut s, '"');
        } else if c == '\\' {
            push_char(&mut s, '\\');
            push_char(&mut s, '\\');
        } else if 0x20 <= (c as u32) && (c as u32) <= 0x7e {
            push_char(&mut s, c);
        } else {
            push_char(&mut s, '\\');
            push_char(&mut s, 'u');
            push_char(&mut s, '{');
            push_hex(&mut s, c as u32);
            push_char(&mut s, '}');
        }
        proof {
            assert(v@.take(i + 1).drop_last() =~= v@.take(i as int));
            assert(s@ =~= before + escaped_char(c));
        }
        i = i + 1;
    }
    assert(v@.take(v.len() as int) =~= v@);
    s
}

/// Why an API key was refused.
#[derive(Debug)]
pub enum KeyError {
    /// Empty, or more than one line.
    Invalid,
}

impl KeyError {
    /// The text shown to the user.
    pub fn message(&self) -> (r: String)
        ensures
            r@ == "a non-empty, single-line API key is required"@,
    {
        owned("a non-empty, single-line API key is required")
    }
}

/// A usable API key: not empty, with no line feed or carriage return.
pub open spec fn valid_key(key: Seq<char>) -> bool {
    key.len() > 0 && forall|i: int| 0 <= i < key.len() ==> key[i] != '\n' && key[i] != '\r'
}

/// Checks the key typed at the API key prompt.
pub fn prompt_for_key(key: String) -> (r: Result<String, KeyError>)
    ensures
        valid_key(key@) ==> (r matches Ok(k) && k@ == key@),
        !valid_key(key@) ==> r matches Err(KeyError::Invalid),
{
    let v = chars_of(key.as_str());
    if v.len() == 0 {
        return Err(KeyError::Invalid);
    }
    let mut i: usize = 0;
    while i < v.len()
        invariant
            i <= v.len(),
            v@ == key@,
            forall|j: int| 0 <= j < i ==> v@[j] != '\n' && v@[j] != '\r',
        decreases v.len() - i,
    {
        if v[i] == '\n' || v[i] == '\r' {
            return Err(KeyError::Invalid);
        }
        i = i + 1;
    }
    Ok(key)
}

/// One line of the model menu: `  <n>. <model>`, marked when current.
pub open spec fn menu_line(index: nat, model: Seq<char>, current: Seq<char>) -> Seq<char> {
    "  "@ + decimal(index + 1) + ". "@ + model + (if model == current {
        " (current)"@
    } else {
        seq![]
    })
}

/// The numbered list of models shown by `/model`.
pub fn model_menu(models: &Vec<String>, current: &str) -> (r: Vec<String>)
    ensures
        r@.len() == models@.len(),
        forall|i: int|
            0 <= i < models@.len() ==> (#[trigger] r@[i])@ == menu_line(
                i as nat,
                models@[i]@,
                current@,
            ),
{
    let mut r: Vec<String> = Vec::new();
    for i in 0..models.len()
        invariant
            r@.len() == i,
            forall|j: int|
                0 <= j < i ==> (#[trigger] r@[j])@ == menu_line(j as nat, models@[j]@, current@),
    {
        let mut line = owned("  ");
        push_decimal(&mut line, i as u64 + 1);
        line.append(". ");
        line.append(models[i].as_str());
        if str_equals(models[i].as_str(), current) {
            line.append(" (current)");
        }
        r.push(line);
    }
    r
}

/// A digit sequence read as a number.
pub open spec fn digits_value(d: Seq<char>) -> nat
    decreases d.len(),
{
    if d.len() == 0 {
        0
    } else {
        digits_value(d.drop_last()) * 10 + ((d.last() as u32) - 48) as nat
    }
}

/// The digits of an unsigned number: without one leading `+`.
pub open spec fn unsigned_digits(s: Seq<char>) -> Seq<char> {
    if s.len() > 0 && s[0] == '+' {
        s.drop_first()
    } else {
        s
    }
}

/// Every character is an ASCII digit.
pub open spec fn all_digits(d: Seq<char>) -> bool {
    forall|i: int| 0 <= i < d.len() ==> is_ascii_digit(#[trigger] d[i])
}

/// `str::parse::<usize>`: an optional `+`, then one or more ASCII digits,
/// with a value that fits.
pub open spec fn parsed_usize(s: Seq<char>) -> Option<nat> {
    let d = unsigned_digits(s);
    if d.len() > 0 && all_digits(d) && digits_value(d) <= usize::MAX {
        Some(digits_value(d))
    } else {
        None
    }
}

proof fn lemma_digits_value_grows(d: Seq<char>, i: int)
    requires
        0 <= i <= d.len(),
        forall|j: int| 0 <= j < d.len() ==> is_ascii_digit(#[trigger] d[j]),
    ensures
        digits_value(d.take(i)) <= digits_value(d),
    decreases d.len() - i,
{
    if i < d.len() {
        assert(d.take(i + 1).drop_last() =~= d.take(i));
        lemma_digits_value_grows(d, i + 1);
    } else {
        assert(d.take(i) =~= d);
    }
}

/// Reads a number the way `str::parse::<usize>` does.
#[verifier::spinoff_prover]
#[verifier::rlimit(40)]
pub fn parse_usize(s: &str) -> (r: Option<usize>)
    ensures
        match parsed_usize(s@) {
            Some(n) => r == Some(n as usize),
            None => r is None,
        },
{
    let v = chars_of(s);
    let start: usize = if v.len() > 0 && v[0] == '+' {
        1
    } else {
        0
    };
    let ghost d = v@.skip(start as int);
    assert(start == 1 ==> d =~= v@.drop_first());
    assert(start == 0 ==> d =~= v@);
    if start == v.len() {
        return None;
    }
    let mut acc: usize = 0;
    let mut i = start;
    assert(d.take(0) =~= Seq::<char>::empty());
    while i < v.len()
        invariant
            start <= i <= v.len(),
            d == v@.skip(start as int),
            v@ == s@,
            d == unsigned_digits(s@),
            acc as nat == digits_value(d.take(i - start)),
            forall|j: int| 0 <= j < i - start ==> is_ascii_digit(#[trigger] d[j]),
        decreases v.len() - i,
    {
        let c = v[i];
        if !('0' <= c && c <= '9') {
            assert(d[i - start] == c);
            assert(!is_ascii_digit(d[i - start]));
            assert(!all_digits(d));
            return None;
        }
        assert(d.take(i - start + 1).drop_last() =~= d.take(i - start));
        assert(d.take(i - start + 1).last() == c);
        let digit = (c as u32 - 48) as usize;
        let grown = match acc.checked_mul(10) {
            Some(m) => m.checked_add(digit),
            None => None,
        };
        match grown {
            Some(n) => {
                acc = n;
            },
            None => {
                proof {
                    assert(digits_value(d.take(i - start + 1)) == acc * 10 + digit);
                    assert(digits_value(d.take(i - start + 1)) > usize::MAX);
                    if all_digits(d) {
                        lemma_digits_value_grows(d, i - start + 1);
                    }
                }
                return None;
            },
        }
        i = i + 1;
    }
    assert(d.take(i - start) =~= d);
    Some(acc)
}

/// Why a model choice was refused.
#[derive(Debug)]
pub enum ChooseError {
    /// Not a number of a listed model.
    NotListed,
}

impl ChooseError {
    /// The text shown to the user.
    pub fn message(&self) -> (r: String)
        ensures
            r@ == "choose a listed model number"@,
    {
        owned("choose a listed model number")
    }
}

/// The model picked by the answer to the `/model` menu: an empty answer
/// keeps `current`; a number `n` picks the `n`-th model (`0` picks the
/// first).
pub open spec fn chosen_model(models: Seq<Seq<char>>, current: Seq<char>, answer: Seq<char>) -> Option<
    Seq<char>,
> {
    let choice = trim(answer);
    if choice.len() == 0 {
        Some(current)
    } else {
        match parsed_usize(choice) {
            Some(n) => {
                let i = if n == 0 {
                    0
                } else {
                    n - 1
                };
                if i < models.len() {
                    Some(models[i as int])
                } else {
                    None
                }
            },
            None => None,
        }
    }
}

/// Applies the user's answer to the model menu.
pub fn choose_model(models: &Vec<String>, current: &str, answer: &str) -> (r: Result<
    String,
    ChooseError,
>)
    ensures
        match chosen_model(models@.map_values(|m: String| m@), current@, answer@) {
            Some(m) => r matches Ok(s) && s@ == m,
            None => r matches Err(ChooseError::NotListed),
        },
{
    let choice = trimmed(answer);
    let ghost names = models@.map_values(|m: String| m@);
    if choice.unicode_len() == 0 {
        return Ok(owned(current));
    }
    match parse_usize(choice.as_str()) {
        Some(n) => {
            let i = if n == 0 {
                0
            } else {
                n - 1
            };
            if i < models.len() {
                assert(names[i as int] == models@[i as int]@);
                Ok(models[i].clone())
            } else {
                Err(ChooseError::NotListed)
            }
        },
        None => Err(ChooseError::NotListed),
    }
}

} // verus!
