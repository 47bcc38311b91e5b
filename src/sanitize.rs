//! Turns raw message text into text that the markup prints literally.
//!
//! The steps, in order: plain punctuation, removal of the emoji variation
//! selector, escaping of every reserved character and of line breaks, and
//! wrapping of each run of pictographic characters in the emoji font.
use vstd::prelude::*;
use crate::text::{
    chars_of, string_of, push_str_chars, flat_map_chars, lemma_flat_map_push, lemma_flat_map_concat,
};

verus! {

pub const LEFT_SINGLE_QUOTE: char = '\u{2018}';
pub const RIGHT_SINGLE_QUOTE: char = '\u{2019}';
pub const LEFT_DOUBLE_QUOTE: char = '\u{201C}';
pub const RIGHT_DOUBLE_QUOTE: char = '\u{201D}';
pub const ELLIPSIS: char = '\u{2026}';
pub const VARIATION_SELECTOR: char = '\u{FE0F}';

/// The plain ASCII spelling of a typographic punctuation character; other characters stay.
pub open spec fn plain_punctuation(c: char) -> Seq<char> {
    if c == LEFT_SINGLE_QUOTE || c == RIGHT_SINGLE_QUOTE {
        seq!['\'']
    } else if c == LEFT_DOUBLE_QUOTE || c == RIGHT_DOUBLE_QUOTE {
        seq!['"']
    } else if c == ELLIPSIS {
        seq!['.', '.', '.']
    } else {
        seq![c]
    }
}

pub open spec fn plain_punctuation_fn() -> spec_fn(char) -> Seq<char> {
    |c: char| plain_punctuation(c)
}

/// `s` with its typographic punctuation replaced by plain ASCII.
pub open spec fn normalized_punctuation(s: Seq<char>) -> Seq<char> {
    flat_map_chars(s, plain_punctuation_fn())
}

pub open spec fn without_selector(c: char) -> Seq<char> {
    if c == VARIATION_SELECTOR {
        Seq::empty()
    } else {
        seq![c]
    }
}

pub open spec fn without_selector_fn() -> spec_fn(char) -> Seq<char> {
    |c: char| without_selector(c)
}

/// `s` without the emoji variation selector.
pub open spec fn stripped_selectors(s: Seq<char>) -> Seq<char> {
    flat_map_chars(s, without_selector_fn())
}

/// The characters that the markup language reads as commands.
pub open spec fn is_reserved(c: char) -> bool {
    c == '\\' || c == '$' || c == '%' || c == '&' || c == '_' || c == '^' || c == '~' || c == '#'
        || c == '{' || c == '}'
}

/// The reserved characters that a backslash in front of them prints literally.
pub open spec fn is_short_escaped(c: char) -> bool {
    c == '$' || c == '%' || c == '&' || c == '_' || c == '#' || c == '{' || c == '}'
}

pub open spec fn backslash_token() -> Seq<char> {
    "\\textbackslash\\ "@
}

pub open spec fn circumflex_token() -> Seq<char> {
    "\\textasciicircum\\ "@
}

pub open spec fn tilde_token() -> Seq<char> {
    "\\textasciitilde\\ "@
}

pub open spec fn newline_token() -> Seq<char> {
    "\\newline\n"@
}

/// How the markup spells one character of text.
pub open spec fn markup_escape(c: char) -> Seq<char> {
    if c == '\\' {
        backslash_token()
    } else if c == '^' {
        circumflex_token()
    } else if c == '~' {
        tilde_token()
    } else if c == '\n' {
        newline_token()
    } else if is_short_escaped(c) {
        seq!['\\', c]
    } else {
        seq![c]
    }
}

pub open spec fn markup_escape_fn() -> spec_fn(char) -> Seq<char> {
    |c: char| markup_escape(c)
}

/// `s` with every reserved character escaped and every newline made a forced line break.
pub open spec fn escaped_markup(s: Seq<char>) -> Seq<char> {
    flat_map_chars(s, markup_escape_fn())
}

pub open spec fn prepend(c: char, o: Option<Seq<char>>) -> Option<Seq<char>> {
    match o {
        Some(s) => Some(seq![c] + s),
        None => None,
    }
}

/// Reads markup text back into the text it prints: `None` where a reserved
/// character stands without its escape.
pub open spec fn decode_markup(t: Seq<char>) -> Option<Seq<char>>
    decreases t.len(),
{
    if t.len() == 0 {
        Some(Seq::empty())
    } else if t.len() >= 2 && t[0] == '\\' && is_short_escaped(t[1]) {
        prepend(t[1], decode_markup(t.subrange(2, t.len() as int)))
    } else if t.len() >= 16 && t.subrange(0, 16) == backslash_token() {
        prepend('\\', decode_markup(t.subrange(16, t.len() as int)))
    } else if t.len() >= 18 && t.subrange(0, 18) == circumflex_token() {
        prepend('^', decode_markup(t.subrange(18, t.len() as int)))
    } else if t.len() >= 17 && t.subrange(0, 17) == tilde_token() {
        prepend('~', decode_markup(t.subrange(17, t.len() as int)))
    } else if t.len() >= 9 && t.subrange(0, 9) == newline_token() {
        prepend('\n', decode_markup(t.subrange(9, t.len() as int)))
    } else if is_reserved(t[0]) {
        None
    } else {
        prepend(t[0], decode_markup(t.drop_first()))
    }
}

/// The markup that selects the emoji font for what follows, up to the closing brace.
pub open spec fn emoji_font_open() -> Seq<char> {
    "{\\emojifont "@
}

/// `s` from position `i` on, with every maximal run of marked characters
/// wrapped in the emoji font; `open` says whether a run is open before `i`.
pub open spec fn wrap_runs_from(s: Seq<char>, marks: Seq<bool>, i: int, open: bool) -> Seq<char>
    decreases s.len() - i,
{
    if i >= s.len() || i < 0 {
        if open {
            seq!['}']
        } else {
            Seq::empty()
        }
    } else if marks[i] {
        (if open {
            Seq::empty()
        } else {
            emoji_font_open()
        }) + seq![s[i]] + wrap_runs_from(s, marks, i + 1, true)
    } else {
        (if open {
            seq!['}']
        } else {
            Seq::empty()
        }) + seq![s[i]] + wrap_runs_from(s, marks, i + 1, false)
    }
}

/// `s` with every maximal run of characters marked in `marks` wrapped in the emoji font.
pub open spec fn wrapped_runs(s: Seq<char>, marks: Seq<bool>) -> Seq<char> {
    wrap_runs_from(s, marks, 0, false)
}

/// Whether `c` has the Unicode property Extended_Pictographic.
pub uninterp spec fn is_extended_pictographic(c: char) -> bool;

/// For each character of `s`, whether it is pictographic.
pub open spec fn pictographic_marks(s: Seq<char>) -> Seq<bool> {
    Seq::new(s.len(), |i: int| is_extended_pictographic(s[i]))
}

/// The text before its runs of emoji are wrapped: punctuation made plain,
/// selectors removed, reserved characters and newlines escaped.
pub open spec fn escaped_text(raw: Seq<char>) -> Seq<char> {
    escaped_markup(stripped_selectors(normalized_punctuation(raw)))
}

/// What `sanitize` makes of `raw`.
pub open spec fn sanitized(raw: Seq<char>) -> Seq<char> {
    wrapped_runs(escaped_text(raw), pictographic_marks(escaped_text(raw)))
}

/// Relies on the regex class `\p{Extended_Pictographic}`: for each character
/// of `s`, whether that class matches it.
#[verifier::external_body]
fn pictographic_flags(s: &Vec<char>) -> (r: Vec<bool>)
    ensures
        r@.len() == s@.len(),
        forall|i: int| 0 <= i < s@.len() ==> r@[i] == is_extended_pictographic(#[trigger] s@[i]),
        forall|i: int| 0 <= i < s@.len() && #[trigger] r@[i] ==> (s@[i] as u32) >= 0xA9,
{
    let re = regex::Regex::new(r"\p{Extended_Pictographic}").unwrap();
    let mut buf = [0u8; 4];
    let mut r = Vec::with_capacity(s.len());
    for c in s.iter() {
        r.push(re.is_match(c.encode_utf8(&mut buf)));
    }
    r
}

fn normalize_punctuation_chars(s: &Vec<char>) -> (r: Vec<char>)
    ensures
        r@ == normalized_punctuation(s@),
{
    let mut out: Vec<char> = Vec::new();
    let mut i: usize = 0;
    while i < s.len()
        invariant
            i <= s@.len(),
            out@ == normalized_punctuation(s@.take(i as int)),
        decreases s.len() - i,
    {
        let c = s[i];
        if c == LEFT_SINGLE_QUOTE || c == RIGHT_SINGLE_QUOTE {
            out.push('\'');
        } else if c == LEFT_DOUBLE_QUOTE || c == RIGHT_DOUBLE_QUOTE {
            out.push('"');
        } else if c == ELLIPSIS {
            out.push('.');
            out.push('.');
            out.push('.');
        } else {
            out.push(c);
        }
        proof {
            lemma_flat_map_push(s@.take(i as int), c, plain_punctuation_fn());
            assert(s@.take(i + 1) =~= s@.take(i as int).push(c));
            assert(out@ =~= normalized_punctuation(s@.take(i + 1)));
        }
        i = i + 1;
    }
    assert(s@.take(s@.len() as int) =~= s@);
    out
}

fn strip_selectors_chars(s: &Vec<char>) -> (r: Vec<char>)
    ensures
        r@ == stripped_selectors(s@),
{
    let mut out: Vec<char> = Vec::new();
    let mut i: usize = 0;
    while i < s.len()
        invariant
            i <= s@.len(),
            out@ == stripped_selectors(s@.take(i as int)),
        decreases s.len() - i,
    {
        let c = s[i];
        if c != VARIATION_SELECTOR {
            out.push(c);
        }
        proof {
            lemma_flat_map_push(s@.take(i as int), c, without_selector_fn());
            assert(s@.take(i + 1) =~= s@.take(i as int).push(c));
            assert(out@ =~= stripped_selectors(s@.take(i + 1)));
        }
        i = i + 1;
    }
    assert(s@.take(s@.len() as int) =~= s@);
    out
}

fn escape_markup_chars(s: &Vec<char>) -> (r: Vec<char>)
    ensures
        r@ == escaped_markup(s@),
{
    let mut out: Vec<char> = Vec::new();
    let mut i: usize = 0;
    while i < s.len()
        invariant
            i <= s@.len(),
            out@ == escaped_markup(s@.take(i as int)),
        decreases s.len() - i,
    {
        let c = s[i];
        if c == '\\' {
            push_str_chars(&mut out, "\\textbackslash\\ ");
        } else if c == '^' {
            push_str_chars(&mut out, "\\textasciicircum\\ ");
        } else if c == '~' {
            push_str_chars(&mut out, "\\textasciitilde\\ ");
        } else if c == '\n' {
            push_str_chars(&mut out, "\\newline\n");
        } else if c == '$' || c == '%' || c == '&' || c == '_' || c == '#' || c == '{' || c
            == '}' {
            out.push('\\');
            out.push(c);
        } else {
            out.push(c);
        }
        proof {
            lemma_flat_map_push(s@.take(i as int), c, markup_escape_fn());
            assert(s@.take(i + 1) =~= s@.take(i as int).push(c));
            assert(out@ =~= escaped_markup(s@.take(i + 1)));
        }
        i = i + 1;
    }
    assert(s@.take(s@.len() as int) =~= s@);
    out
}

fn wrap_runs_chars(s: &Vec<char>, marks: &Vec<bool>) -> (r: Vec<char>)
    requires
        marks@.len() == s@.len(),
    ensures
        r@ == wrapped_runs(s@, marks@),
{
    let mut out: Vec<char> = Vec::new();
    let mut open = false;
    let mut i: usize = 0;
    while i < s.len()
        invariant
            i <= s@.len(),
            marks@.len() == s@.len(),
            out@ + wrap_runs_from(s@, marks@, i as int, open) == wrapped_runs(s@, marks@),
        decreases s.len() - i,
    {
        let ghost before = out@;
        let ghost was_open = open;
        let c = s[i];
        if marks[i] {
            if !open {
                push_str_chars(&mut out, "{\\emojifont ");
            }
            out.push(c);
            open = true;
        } else {
            if open {
                out.push('}');
            }
            out.push(c);
            open = false;
        }
        assert(before + wrap_runs_from(s@, marks@, i as int, was_open) =~= out@ + wrap_runs_from(
            s@,
            marks@,
            i + 1,
            open,
        ));
        i = i + 1;
    }
    if open {
        out.push('}');
    }
    assert(out@ =~= wrapped_runs(s@, marks@));
    out
}

/// `s` with typographic quotes and the ellipsis glyph replaced by plain ASCII.
pub fn normalize_punctuation(s: &str) -> (r: String)
    ensures
        r@ == normalized_punctuation(s@),
{
    string_of(&normalize_punctuation_chars(&chars_of(s)))
}

/// `s` without the emoji variation selector U+FE0F.
pub fn strip_variation_selectors(s: &str) -> (r: String)
    ensures
        r@ == stripped_selectors(s@),
{
    string_of(&strip_selectors_chars(&chars_of(s)))
}

/// `s` with every reserved character escaped and every newline preceded by a forced line break.
pub fn escape_markup(s: &str) -> (r: String)
    ensures
        r@ == escaped_markup(s@),
{
    string_of(&escape_markup_chars(&chars_of(s)))
}

/// `s` with each maximal run of characters that `marks` marks wrapped in the emoji font.
pub fn wrap_marked_runs(s: &str, marks: &Vec<bool>) -> (r: String)
    requires
        marks@.len() == s@.len(),
    ensures
        r@ == wrapped_runs(s@, marks@),
{
    string_of(&wrap_runs_chars(&chars_of(s), marks))
}

/// Raw message text made ready for the markup: plain punctuation, no
/// variation selectors, reserved characters and newlines escaped, and each
/// run of pictographic characters wrapped in the emoji font.
pub fn sanitize(raw: &str) -> (r: String)
    ensures
        r@ == sanitized(raw@),
        decode_sanitized(r@, false) == Some(stripped_selectors(normalized_punctuation(raw@))),
{
    let chars = chars_of(raw);
    let plain = normalize_punctuation_chars(&chars);
    let stripped = strip_selectors_chars(&plain);
    let escaped = escape_markup_chars(&stripped);
    let marks = pictographic_flags(&escaped);
    assert(marks@ =~= pictographic_marks(escaped@));
    proof {
        lemma_sanitized_round_trip(raw@, marks@);
    }
    string_of(&wrap_runs_chars(&escaped, &marks))
}

proof fn lemma_plain_text_fixed(s: Seq<char>)
    requires
        forall|i: int| 0 <= i < s.len() ==> plain_punctuation(#[trigger] s[i]) == seq![s[i]],
    ensures
        normalized_punctuation(s) == s,
    decreases s.len(),
{
    if s.len() > 0 {
        assert forall|i: int| 0 <= i < s.drop_first().len() implies plain_punctuation(
            #[trigger] s.drop_first()[i],
        ) == seq![s.drop_first()[i]] by {
            assert(s.drop_first()[i] == s[i + 1]);
        }
        lemma_plain_text_fixed(s.drop_first());
        assert(plain_punctuation(s[0]) == seq![s[0]]);
        assert(normalized_punctuation(s) =~= s);
    }
}

/// Making punctuation plain a second time changes nothing.
pub proof fn lemma_normalize_punctuation_idempotent(s: Seq<char>)
    ensures
        normalized_punctuation(normalized_punctuation(s)) == normalized_punctuation(s),
    decreases s.len(),
{
    if s.len() > 0 {
        let head = plain_punctuation(s[0]);
        lemma_flat_map_concat(head, normalized_punctuation(s.drop_first()), plain_punctuation_fn());
        lemma_normalize_punctuation_idempotent(s.drop_first());
        lemma_plain_text_fixed(head);
    }
}

proof fn lemma_decode_one(c: char, rest: Seq<char>)
    ensures
        decode_markup(markup_escape(c) + rest) == prepend(c, decode_markup(rest)),
{
    reveal_strlit("\\textbackslash\\ ");
    reveal_strlit("\\textasciicircum\\ ");
    reveal_strlit("\\textasciitilde\\ ");
    reveal_strlit("\\newline\n");
    let t = markup_escape(c) + rest;
    let n = t.len() as int;
    if c == '\\' {
        assert(t.subrange(0, 16) =~= backslash_token());
        assert(t.subrange(16, n) =~= rest);
    } else if c == '^' {
        assert(t[5] != backslash_token()[5]);
        assert(t.subrange(0, 18) =~= circumflex_token());
        assert(t.subrange(18, n) =~= rest);
    } else if c == '~' {
        assert(t[5] != backslash_token()[5]);
        assert(t.len() >= 18 ==> t[10] != circumflex_token()[10]);
        assert(t.subrange(0, 17) =~= tilde_token());
        assert(t.subrange(17, n) =~= rest);
    } else if c == '\n' {
        assert(t[1] != backslash_token()[1]);
        assert(t[1] != circumflex_token()[1]);
        assert(t[1] != tilde_token()[1]);
        assert(t.subrange(0, 9) =~= newline_token());
        assert(t.subrange(9, n) =~= rest);
    } else if is_short_escaped(c) {
        assert(t.subrange(2, n) =~= rest);
    } else {
        assert(t[0] != backslash_token()[0]);
        assert(t[0] != circumflex_token()[0]);
        assert(t[0] != tilde_token()[0]);
        assert(t[0] != newline_token()[0]);
        assert(t.drop_first() =~= rest);
    }
}

proof fn lemma_decode_escaped(p: Seq<char>)
    ensures
        decode_markup(escaped_markup(p)) == Some(p),
    decreases p.len(),
{
    if p.len() == 0 {
        assert(escaped_markup(p) =~= Seq::<char>::empty());
    } else {
        lemma_decode_escaped(p.drop_first());
        lemma_decode_one(p[0], escaped_markup(p.drop_first()));
        assert(seq![p[0]] + p.drop_first() =~= p);
    }
}

/// Escaping leaves no reserved character bare, and reading the escapes back
/// gives the text with plain punctuation and without variation selectors.
pub proof fn lemma_escape_round_trip(raw: Seq<char>)
    ensures
        decode_markup(escaped_text(raw)) == Some(stripped_selectors(normalized_punctuation(raw))),
{
    lemma_decode_escaped(stripped_selectors(normalized_punctuation(raw)));
}

/// The glyphs that plain punctuation replaces.
pub open spec fn is_typographic(c: char) -> bool {
    c == LEFT_SINGLE_QUOTE || c == RIGHT_SINGLE_QUOTE || c == LEFT_DOUBLE_QUOTE || c
        == RIGHT_DOUBLE_QUOTE || c == ELLIPSIS
}

pub open spec fn free_of_typographic(s: Seq<char>) -> bool {
    forall|i: int| 0 <= i < s.len() ==> !is_typographic(#[trigger] s[i])
}

proof fn lemma_flat_map_free(s: Seq<char>, f: spec_fn(char) -> Seq<char>)
    requires
        forall|j: int| 0 <= j < s.len() ==> free_of_typographic(f(#[trigger] s[j])),
    ensures
        free_of_typographic(flat_map_chars(s, f)),
    decreases s.len(),
{
    if s.len() > 0 {
        assert forall|j: int| 0 <= j < s.drop_first().len() implies free_of_typographic(
            f(#[trigger] s.drop_first()[j]),
        ) by {
            assert(s.drop_first()[j] == s[j + 1]);
        }
        lemma_flat_map_free(s.drop_first(), f);
        assert(free_of_typographic(f(s[0])));
    }
}

proof fn lemma_tokens_free()
    ensures
        free_of_typographic(backslash_token()),
        free_of_typographic(circumflex_token()),
        free_of_typographic(tilde_token()),
        free_of_typographic(newline_token()),
        free_of_typographic(emoji_font_open()),
{
    reveal_strlit("\\textbackslash\\ ");
    reveal_strlit("\\textasciicircum\\ ");
    reveal_strlit("\\textasciitilde\\ ");
    reveal_strlit("\\newline\n");
    reveal_strlit("{\\emojifont ");
}

proof fn lemma_wrap_runs_free(s: Seq<char>, marks: Seq<bool>, i: int, open: bool)
    requires
        free_of_typographic(s),
        marks.len() == s.len(),
        0 <= i,
    ensures
        free_of_typographic(wrap_runs_from(s, marks, i, open)),
    decreases s.len() - i,
{
    lemma_tokens_free();
    if i < s.len() {
        lemma_wrap_runs_free(s, marks, i + 1, marks[i]);
        assert(!is_typographic(s[i]));
    }
}

/// Sanitized text holds no typographic quote or ellipsis, so making its
/// punctuation plain once more changes nothing.
pub proof fn lemma_sanitized_punctuation_is_plain(raw: Seq<char>)
    ensures
        free_of_typographic(sanitized(raw)),
        normalized_punctuation(sanitized(raw)) == sanitized(raw),
{
    let n = normalized_punctuation(raw);
    assert forall|j: int| 0 <= j < raw.len() implies free_of_typographic(
        plain_punctuation_fn()(#[trigger] raw[j]),
    ) by {}
    lemma_flat_map_free(raw, plain_punctuation_fn());
    let st = stripped_selectors(n);
    assert forall|j: int| 0 <= j < n.len() implies free_of_typographic(
        without_selector_fn()(#[trigger] n[j]),
    ) by {
        assert(!is_typographic(n[j]));
    }
    lemma_flat_map_free(n, without_selector_fn());
    let e = escaped_text(raw);
    lemma_tokens_free();
    assert forall|j: int| 0 <= j < st.len() implies free_of_typographic(
        markup_escape_fn()(#[trigger] st[j]),
    ) by {
        assert(!is_typographic(st[j]));
    }
    lemma_flat_map_free(st, markup_escape_fn());
    lemma_wrap_runs_free(e, pictographic_marks(e), 0, false);
    let out = sanitized(raw);
    assert forall|i: int| 0 <= i < out.len() implies plain_punctuation(#[trigger] out[i]) == seq![out[i]] by {
        assert(!is_typographic(out[i]));
    }
    lemma_plain_text_fixed(out);
}

/// Reads sanitized text back into the text it prints, emoji spans included;
/// `open` says whether an emoji span is open. `None` where a reserved
/// character stands without its escape, or a span is left open.
pub open spec fn decode_sanitized(t: Seq<char>, open: bool) -> Option<Seq<char>>
    decreases t.len(),
{
    if t.len() == 0 {
        if open {
            None
        } else {
            Some(Seq::empty())
        }
    } else if open && t[0] == '}' {
        decode_sanitized(t.drop_first(), false)
    } else if !open && t.len() >= 12 && t.subrange(0, 12) == emoji_font_open() {
        decode_sanitized(t.subrange(12, t.len() as int), true)
    } else if t.len() >= 2 && t[0] == '\\' && is_short_escaped(t[1]) {
        prepend(t[1], decode_sanitized(t.subrange(2, t.len() as int), open))
    } else if t.len() >= 16 && t.subrange(0, 16) == backslash_token() {
        prepend('\\', decode_sanitized(t.subrange(16, t.len() as int), open))
    } else if t.len() >= 18 && t.subrange(0, 18) == circumflex_token() {
        prepend('^', decode_sanitized(t.subrange(18, t.len() as int), open))
    } else if t.len() >= 17 && t.subrange(0, 17) == tilde_token() {
        prepend('~', decode_sanitized(t.subrange(17, t.len() as int), open))
    } else if t.len() >= 9 && t.subrange(0, 9) == newline_token() {
        prepend('\n', decode_sanitized(t.subrange(9, t.len() as int), open))
    } else if is_reserved(t[0]) {
        None
    } else {
        prepend(t[0], decode_sanitized(t.drop_first(), open))
    }
}

/// Marks that fall on no ASCII character.
pub open spec fn marks_beyond_ascii(s: Seq<char>, marks: Seq<bool>) -> bool {
    &&& marks.len() == s.len()
    &&& forall|i: int| 0 <= i < s.len() && #[trigger] marks[i] ==> (s[i] as u32) >= 0xA9
}

proof fn lemma_escape_shape(c: char)
    ensures
        markup_escape(c).len() >= 1,
        markup_escape(c).len() == 1 ==> markup_escape(c) == seq![c] && !is_reserved(c),
        markup_escape(c).len() > 1 ==> markup_escape(c)[0] == '\\' && forall|x: int|
            0 <= x < markup_escape(c).len() ==> (#[trigger] markup_escape(c)[x] as u32) < 0xA9,
{
    reveal_strlit("\\textbackslash\\ ");
    reveal_strlit("\\textasciicircum\\ ");
    reveal_strlit("\\textasciitilde\\ ");
    reveal_strlit("\\newline\n");
}

proof fn lemma_decode_sanitized_one(c: char, rest: Seq<char>)
    ensures
        decode_sanitized(markup_escape(c) + rest, false) == prepend(
            c,
            decode_sanitized(rest, false),
        ),
{
    reveal_strlit("\\textbackslash\\ ");
    reveal_strlit("\\textasciicircum\\ ");
    reveal_strlit("\\textasciitilde\\ ");
    reveal_strlit("\\newline\n");
    reveal_strlit("{\\emojifont ");
    let t = markup_escape(c) + rest;
    let n = t.len() as int;
    assert(t[0] != emoji_font_open()[0]);
    if c == '\\' {
        assert(t.subrange(0, 16) =~= backslash_token());
        assert(t.subrange(16, n) =~= rest);
    } else if c == '^' {
        assert(t[5] != backslash_token()[5]);
        assert(t.subrange(0, 18) =~= circumflex_token());
        assert(t.subrange(18, n) =~= rest);
    } else if c == '~' {
        assert(t[5] != backslash_token()[5]);
        assert(t.len() >= 18 ==> t[10] != circumflex_token()[10]);
        assert(t.subrange(0, 17) =~= tilde_token());
        assert(t.subrange(17, n) =~= rest);
    } else if c == '\n' {
        assert(t[1] != backslash_token()[1]);
        assert(t[1] != circumflex_token()[1]);
        assert(t[1] != tilde_token()[1]);
        assert(t.subrange(0, 9) =~= newline_token());
        assert(t.subrange(9, n) =~= rest);
    } else if is_short_escaped(c) {
        assert(t.subrange(2, n) =~= rest);
    } else {
        assert(t[0] != backslash_token()[0]);
        assert(t[0] != circumflex_token()[0]);
        assert(t[0] != tilde_token()[0]);
        assert(t[0] != newline_token()[0]);
        assert(t.drop_first() =~= rest);
    }
}

proof fn lemma_wrap_unmarked(s: Seq<char>, marks: Seq<bool>, i: int, j: int)
    requires
        0 <= i <= j <= s.len(),
        marks.len() == s.len(),
        forall|x: int| i <= x < j ==> !#[trigger] marks[x],
    ensures
        wrap_runs_from(s, marks, i, false) == s.subrange(i, j) + wrap_runs_from(s, marks, j, false),
    decreases j - i,
{
    if i < j {
        lemma_wrap_unmarked(s, marks, i + 1, j);
        assert(s.subrange(i, j) =~= seq![s[i]] + s.subrange(i + 1, j));
    } else {
        assert(s.subrange(i, j) =~= Seq::<char>::empty());
    }
}

proof fn lemma_decode_wrapped(p: Seq<char>, marks: Seq<bool>, k: int, open: bool)
    requires
        0 <= k <= p.len(),
        marks_beyond_ascii(escaped_markup(p), marks),
    ensures
        decode_sanitized(
            wrap_runs_from(escaped_markup(p), marks, escaped_markup(p.take(k)).len() as int, open),
            open,
        ) == Some(p.skip(k)),
    decreases p.len() - k,
{
    let e = escaped_markup(p);
    assert(p =~= p.take(k) + p.skip(k));
    crate::text::lemma_flat_map_concat(p.take(k), p.skip(k), markup_escape_fn());
    let i = escaped_markup(p.take(k)).len() as int;
    if k == p.len() {
        assert(p.skip(k) =~= Seq::<char>::empty());
        assert(i == e.len());
        if open {
            assert(decode_sanitized(seq!['}'], true) == decode_sanitized(
                seq!['}'].drop_first(),
                false,
            ));
            assert(seq!['}'].drop_first() =~= Seq::<char>::empty());
        }
    } else {
        let c = p[k];
        let tok = markup_escape(c);
        let l = tok.len() as int;
        assert(p.skip(k).drop_first() =~= p.skip(k + 1));
        assert(escaped_markup(p.skip(k)) == tok + escaped_markup(p.skip(k + 1)));
        lemma_flat_map_push(p.take(k), c, markup_escape_fn());
        assert(p.take(k + 1) =~= p.take(k).push(c));
        assert(escaped_markup(p.take(k + 1)).len() == i + l);
        lemma_escape_shape(c);
        assert forall|x: int| 0 <= x < l implies e[i + x] == #[trigger] tok[x] by {
            assert(e[i + x] == (escaped_markup(p.take(k)) + escaped_markup(p.skip(k)))[i + x]);
        }
        assert(e.subrange(i, i + l) =~= tok);
        lemma_decode_wrapped(p, marks, k + 1, false);
        lemma_decode_wrapped(p, marks, k + 1, true);
        let w_next = wrap_runs_from(e, marks, i + l, false);
        assert(seq![c] + p.skip(k + 1) =~= p.skip(k));
        if marks[i] {
            assert(tok[0] == e[i]);
            assert(l == 1);
            assert(e[i] == c);
            assert((c as u32) >= 0xA9);
            let w = wrap_runs_from(e, marks, i + 1, true);
            let inner = seq![c] + w;
            reveal_strlit("{\\emojifont ");
            reveal_strlit("\\textbackslash\\ ");
            reveal_strlit("\\textasciicircum\\ ");
            reveal_strlit("\\textasciitilde\\ ");
            reveal_strlit("\\newline\n");
            assert(inner.drop_first() =~= w);
            assert(inner[0] != backslash_token()[0]);
            assert(inner[0] != circumflex_token()[0]);
            assert(inner[0] != tilde_token()[0]);
            assert(inner[0] != newline_token()[0]);
            assert(decode_sanitized(inner, true) == prepend(c, decode_sanitized(w, true)));
            if !open {
                let t = emoji_font_open() + inner;
                assert(t.subrange(0, 12) =~= emoji_font_open());
                assert(t.subrange(12, t.len() as int) =~= inner);
                assert(wrap_runs_from(e, marks, i, open) == t);
            } else {
                assert(wrap_runs_from(e, marks, i, open) =~= inner);
            }
        } else {
            assert forall|x: int| i + 1 <= x < i + l implies !#[trigger] marks[x] by {
                assert(tok[x - i] == e[x]);
            }
            lemma_wrap_unmarked(e, marks, i + 1, i + l);
            let body = e.subrange(i, i + l) + w_next;
            assert(e.subrange(i, i + l) =~= seq![e[i]] + e.subrange(i + 1, i + l));
            assert(wrap_runs_from(e, marks, i, false) =~= body);
            lemma_decode_sanitized_one(c, w_next);
            if open {
                let t = seq!['}'] + body;
                assert(wrap_runs_from(e, marks, i, true) =~= t);
                assert(t.drop_first() =~= body);
            }
        }
    }
}

/// Sanitized text leaves no reserved character bare, and reading its escapes
/// and emoji spans back gives the text with plain punctuation and without
/// variation selectors, whenever the emoji marks fall on no ASCII character.
pub proof fn lemma_sanitized_round_trip(raw: Seq<char>, marks: Seq<bool>)
    requires
        marks_beyond_ascii(escaped_text(raw), marks),
    ensures
        decode_sanitized(wrapped_runs(escaped_text(raw), marks), false) == Some(
            stripped_selectors(normalized_punctuation(raw)),
        ),
{
    let p = stripped_selectors(normalized_punctuation(raw));
    lemma_decode_wrapped(p, marks, 0, false);
    assert(p.take(0) =~= Seq::<char>::empty());
    assert(escaped_markup(p.take(0)) == Seq::<char>::empty());
    assert(p.skip(0) =~= p);
}

} // verus!
