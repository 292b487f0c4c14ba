//! Heuristic classification of captured text as prose or code.
use vstd::prelude::*;

use crate::text::{
    chars_of, contains_seq, has_char, has_seq, is_white_space, is_white_space_char,
    lemma_trim_idempotent, lines, occurs_at, split_lines, trim, trimmed_chars,
};

verus! {

/// Words and fragments whose presence counts toward a piece of text being code.
pub open spec fn code_keywords() -> Seq<&'static str> {
    seq![
        "fn ",
        "function",
        "const ",
        "let ",
        "var ",
        "return ",
        "import ",
        "from ",
        "export ",
        "class ",
        "def ",
        "pub ",
        "static ",
        "struct ",
        "enum ",
        "interface ",
        "type ",
        "if (",
        "for (",
        "while (",
        "async ",
        "await ",
        "SELECT ",
        "INSERT ",
        "UPDATE ",
        "DELETE ",
        "docker run",
        "npm ",
        "cargo ",
        "#include",
    ]
}

/// How many of `keywords` occur in `t`.
pub open spec fn keyword_hits(t: Seq<char>, keywords: Seq<&'static str>) -> int
    decreases keywords.len(),
{
    if keywords.len() == 0 {
        0
    } else {
        keyword_hits(t, keywords.drop_last()) + if contains_seq(t, keywords.last()@) {
            1int
        } else {
            0int
        }
    }
}

pub open spec fn one_if(b: bool) -> int {
    if b {
        1
    } else {
        0
    }
}

/// `t` holds a line break.
pub open spec fn has_line_break(t: Seq<char>) -> bool {
    t.contains('\n') || t.contains('\r')
}

/// Some line of `t` begins with white space.
pub open spec fn has_indented_line(t: Seq<char>) -> bool {
    exists|i: int|
        0 <= i < lines(t).len() && #[trigger] lines(t)[i].len() > 0 && is_white_space(
            lines(t)[i][0],
        )
}

/// The code score of trimmed text `t`: one point for each structural hint and
/// one for each keyword that occurs.
pub open spec fn code_score(t: Seq<char>) -> int {
    one_if(has_line_break(t)) + one_if(t.contains('{') && t.contains('}')) + one_if(
        t.contains(';'),
    ) + one_if(t.contains('(') && t.contains(')')) + one_if(
        contains_seq(t, "=>"@) || contains_seq(t, "->"@),
    ) + one_if(contains_seq(t, "</"@)) + one_if(has_indented_line(t) && has_line_break(t))
        + keyword_hits(t, code_keywords())
}

/// Text is classified as code when, once trimmed, it is non-empty and either
/// spans lines with a score of at least two, or scores at least three.
pub open spec fn looks_like_code(text: Seq<char>) -> bool {
    let t = trim(text);
    t.len() > 0 && ((has_line_break(t) && code_score(t) >= 2) || code_score(t) >= 3)
}

fn any_indented_line(t: &Vec<char>) -> (r: bool)
    ensures
        r == has_indented_line(t@),
{
    let ls = split_lines(t);
    let mut i: usize = 0;
    while i < ls.len()
        invariant
            i <= ls@.len() == lines(t@).len(),
            forall|k: int| 0 <= k < ls@.len() ==> #[trigger] ls@[k]@ == lines(t@)[k],
            forall|k: int|
                0 <= k < i ==> !(#[trigger] lines(t@)[k].len() > 0 && is_white_space(
                    lines(t@)[k][0],
                )),
        decreases ls@.len() - i,
    {
        let line = &ls[i];
        assert(line@ == lines(t@)[i as int]);
        if line.len() > 0 && is_white_space_char(line[0]) {
            return true;
        }
        i = i + 1;
    }
    false
}

fn contains_str(t: &Vec<char>, pat: &str) -> (r: bool)
    ensures
        r == contains_seq(t@, pat@),
{
    let p = chars_of(pat);
    has_seq(t, &p)
}

fn count_keywords(t: &Vec<char>) -> (r: usize)
    ensures
        r == keyword_hits(t@, code_keywords()),
        r <= 30,
{
    let keywords: [&'static str; 30] = [
        "fn ",
        "function",
        "const ",
        "let ",
        "var ",
        "return ",
        "import ",
        "from ",
        "export ",
        "class ",
        "def ",
        "pub ",
        "static ",
        "struct ",
        "enum ",
        "interface ",
        "type ",
        "if (",
        "for (",
        "while (",
        "async ",
        "await ",
        "SELECT ",
        "INSERT ",
        "UPDATE ",
        "DELETE ",
        "docker run",
        "npm ",
        "cargo ",
        "#include",
    ];
    assert(keywords@ =~= code_keywords());
    let mut count: usize = 0;
    let mut i: usize = 0;
    while i < 30
        invariant
            i <= 30,
            keywords@ == code_keywords(),
            count == keyword_hits(t@, code_keywords().take(i as int)),
            count <= i,
        decreases 30 - i,
    {
        assert(code_keywords().take(i + 1).drop_last() =~= code_keywords().take(i as int));
        if contains_str(t, keywords[i]) {
            count = count + 1;
        }
        i = i + 1;
    }
    assert(code_keywords().take(30) =~= code_keywords());
    count
}

/// Classifies `text` as `"code"` or `"text"` by counting code-like features.
#[verifier::rlimit(30)]
pub fn detect_kind(text: &str) -> (r: &'static str)
    ensures
        r@ == if looks_like_code(text@) {
            "code"@
        } else {
            "text"@
        },
{
    let t = trimmed_chars(text);
    if t.len() == 0 {
        return "text";
    }
    let has_nl = has_char(&t, '\n') || has_char(&t, '\r');
    let braces = has_char(&t, '{') && has_char(&t, '}');
    let semicolon = has_char(&t, ';');
    let parens = has_char(&t, '(') && has_char(&t, ')');
    let arrow = contains_str(&t, "=>") || contains_str(&t, "->");
    let closing_tag = contains_str(&t, "</");
    let indented = any_indented_line(&t) && has_nl;
    let keywords = count_keywords(&t);
    let score: usize = (has_nl as usize) + (braces as usize) + (semicolon as usize)
        + (parens as usize) + (arrow as usize) + (closing_tag as usize) + (indented as usize)
        + keywords;
    assert(score == code_score(t@));
    if (has_nl && score >= 2) || score >= 3 {
        "code"
    } else {
        "text"
    }
}

/// Surrounding white space never changes the kind: a text and its trimmed
/// form are classified alike.
pub proof fn law_kind_ignores_surrounding_space(text: Seq<char>)
    ensures
        looks_like_code(trim(text)) == looks_like_code(text),
{
    lemma_trim_idempotent(text);
}

proof fn lemma_hits_step(t: Seq<char>, ks: Seq<&'static str>, k: int)
    requires
        0 <= k < ks.len(),
    ensures
        keyword_hits(t, ks.take(k + 1)) == keyword_hits(t, ks.take(k)) + one_if(
            contains_seq(t, ks[k]@),
        ),
{
    assert(ks.take(k + 1).drop_last() =~= ks.take(k));
}

proof fn lemma_hits_nonneg(t: Seq<char>, ks: Seq<&'static str>)
    ensures
        keyword_hits(t, ks) >= 0,
    decreases ks.len(),
{
    if ks.len() > 0 {
        lemma_hits_nonneg(t, ks.drop_last());
    }
}

proof fn lemma_hits_grow(t: Seq<char>, ks: Seq<&'static str>, i: int, j: int)
    requires
        0 <= i <= j <= ks.len(),
    ensures
        keyword_hits(t, ks.take(j)) >= keyword_hits(t, ks.take(i)),
        keyword_hits(t, ks.take(i)) >= 0,
    decreases j - i,
{
    lemma_hits_nonneg(t, ks.take(i));
    if i < j {
        lemma_hits_step(t, ks, j - 1);
        lemma_hits_grow(t, ks, i, j - 1);
    }
}

/// A keyword that occurs adds a point to the score on top of the points
/// of the keywords listed before it.
proof fn lemma_hit_counts(t: Seq<char>, ks: Seq<&'static str>, i: int, j: int)
    requires
        0 <= i < j <= ks.len(),
        contains_seq(t, ks[i]@),
    ensures
        keyword_hits(t, ks.take(j)) >= keyword_hits(t, ks.take(i)) + 1,
{
    lemma_hits_step(t, ks, i);
    lemma_hits_grow(t, ks, i + 1, j);
}

proof fn lemma_score_counts_keywords(t: Seq<char>)
    ensures
        code_score(t) >= keyword_hits(t, code_keywords()),
{
}

/// Each of the code keywords counts: text that spans lines and holds any one
/// of `fn `, `function`, `const `, `let `, `var `, `return `, `import `,
/// `from `, `export `, `class `, `def `, `pub `, `static `, `struct `, `enum `,
/// `interface `, `type `, `if (`, `for (`, `while (`, `async `, `await `,
/// `SELECT `, `INSERT `, `UPDATE `, `DELETE `, `docker run`, `npm `, `cargo `
/// or `#include` is code.
pub proof fn law_keyword_on_several_lines_is_code(text: Seq<char>, k: int)
    requires
        0 <= k < 30,
        trim(text).contains('\n') || trim(text).contains('\r'),
        contains_seq(
            trim(text),
            seq![
                "fn ",
                "function",
                "const ",
                "let ",
                "var ",
                "return ",
                "import ",
                "from ",
                "export ",
                "class ",
                "def ",
                "pub ",
                "static ",
                "struct ",
                "enum ",
                "interface ",
                "type ",
                "if (",
                "for (",
                "while (",
                "async ",
                "await ",
                "SELECT ",
                "INSERT ",
                "UPDATE ",
                "DELETE ",
                "docker run",
                "npm ",
                "cargo ",
                "#include",
            ][k]@,
        ),
    ensures
        looks_like_code(text),
{
    let ks = code_keywords();
    let t = trim(text);
    assert(seq![
                "fn ",
                "function",
                "const ",
                "let ",
                "var ",
                "return ",
                "import ",
                "from ",
                "export ",
                "class ",
                "def ",
                "pub ",
                "static ",
                "struct ",
                "enum ",
                "interface ",
                "type ",
                "if (",
                "for (",
                "while (",
                "async ",
                "await ",
                "SELECT ",
                "INSERT ",
                "UPDATE ",
                "DELETE ",
                "docker run",
                "npm ",
                "cargo ",
                "#include",
            ] =~= ks);
    lemma_hit_counts(t, ks, k, 30);
    lemma_hits_grow(t, ks, 0, k);
    assert(ks.take(30) =~= ks);
    lemma_score_counts_keywords(t);
}

/// Three different code keywords make code even on a single line: each
/// keyword is a point of its own.
pub proof fn law_three_keywords_are_code(text: Seq<char>, i: int, j: int, l: int)
    requires
        0 <= i < j < l < 30,
        ({
            let ks = seq![
                "fn ",
                "function",
                "const ",
                "let ",
                "var ",
                "return ",
                "import ",
                "from ",
                "export ",
                "class ",
                "def ",
                "pub ",
                "static ",
                "struct ",
                "enum ",
                "interface ",
                "type ",
                "if (",
                "for (",
                "while (",
                "async ",
                "await ",
                "SELECT ",
                "INSERT ",
                "UPDATE ",
                "DELETE ",
                "docker run",
                "npm ",
                "cargo ",
                "#include",
            ];
            &&& contains_seq(trim(text), ks[i]@)
            &&& contains_seq(trim(text), ks[j]@)
            &&& contains_seq(trim(text), ks[l]@)
        }),
    ensures
        looks_like_code(text),
{
    let ks = code_keywords();
    let t = trim(text);
    assert(seq![
                "fn ",
                "function",
                "const ",
                "let ",
                "var ",
                "return ",
                "import ",
                "from ",
                "export ",
                "class ",
                "def ",
                "pub ",
                "static ",
                "struct ",
                "enum ",
                "interface ",
                "type ",
                "if (",
                "for (",
                "while (",
                "async ",
                "await ",
                "SELECT ",
                "INSERT ",
                "UPDATE ",
                "DELETE ",
                "docker run",
                "npm ",
                "cargo ",
                "#include",
            ] =~= ks);
    lemma_hits_grow(t, ks, 0, i);
    lemma_hit_counts(t, ks, i, j);
    lemma_hit_counts(t, ks, j, l);
    lemma_hit_counts(t, ks, l, 30);
    assert(ks.take(30) =~= ks);
    lemma_score_counts_keywords(t);
    {
        reveal_strlit("fn ");
        reveal_strlit("function");
        reveal_strlit("const ");
        reveal_strlit("let ");
        reveal_strlit("var ");
        reveal_strlit("return ");
        reveal_strlit("import ");
        reveal_strlit("from ");
        reveal_strlit("export ");
        reveal_strlit("class ");
        reveal_strlit("def ");
        reveal_strlit("pub ");
        reveal_strlit("static ");
        reveal_strlit("struct ");
        reveal_strlit("enum ");
        reveal_strlit("interface ");
        reveal_strlit("type ");
        reveal_strlit("if (");
        reveal_strlit("for (");
        reveal_strlit("while (");
        reveal_strlit("async ");
        reveal_strlit("await ");
        reveal_strlit("SELECT ");
        reveal_strlit("INSERT ");
        reveal_strlit("UPDATE ");
        reveal_strlit("DELETE ");
        reveal_strlit("docker run");
        reveal_strlit("npm ");
        reveal_strlit("cargo ");
        reveal_strlit("#include");
    }
    assert(ks[i]@.len() > 0);
    let w = choose|w: int| occurs_at(t, ks[i]@, w);
    assert(t.len() > 0);
}

proof fn lemma_no_hits(t: Seq<char>, ks: Seq<&'static str>)
    requires
        forall|k: int| 0 <= k < ks.len() ==> !contains_seq(t, #[trigger] ks[k]@),
    ensures
        keyword_hits(t, ks) == 0,
    decreases ks.len(),
{
    if ks.len() > 0 {
        assert(ks[ks.len() - 1] == ks.last());
        lemma_no_hits(t, ks.drop_last());
    }
}

/// Blank text is never code.
pub proof fn law_blank_is_text(text: Seq<char>)
    requires
        trim(text).len() == 0,
    ensures
        !looks_like_code(text),
{
}

/// A structural hint on text that spans lines makes it code: a pair of
/// braces, a semicolon, a pair of parentheses, an arrow (`=>` or `->`) or a
/// closing tag (`</`).
pub proof fn law_hint_on_several_lines_is_code(text: Seq<char>)
    requires
        trim(text).contains('\n') || trim(text).contains('\r'),
        ({
            let t = trim(text);
            ||| t.contains('{') && t.contains('}')
            ||| t.contains(';')
            ||| t.contains('(') && t.contains(')')
            ||| contains_seq(t, "=>"@) || contains_seq(t, "->"@)
            ||| contains_seq(t, "</"@)
        }),
    ensures
        looks_like_code(text),
{
    lemma_hits_nonneg(trim(text), code_keywords());
}

/// A single line with none of the hints and none of the keywords is plain
/// text.
pub proof fn law_plain_line_is_text(text: Seq<char>)
    requires
        ({
            let t = trim(text);
            let ks = seq![
                "fn ",
                "function",
                "const ",
                "let ",
                "var ",
                "return ",
                "import ",
                "from ",
                "export ",
                "class ",
                "def ",
                "pub ",
                "static ",
                "struct ",
                "enum ",
                "interface ",
                "type ",
                "if (",
                "for (",
                "while (",
                "async ",
                "await ",
                "SELECT ",
                "INSERT ",
                "UPDATE ",
                "DELETE ",
                "docker run",
                "npm ",
                "cargo ",
                "#include",
            ];
            &&& !t.contains('\n') && !t.contains('\r')
            &&& !t.contains(';') && !t.contains('{') && !t.contains('(')
            &&& !contains_seq(t, "=>"@) && !contains_seq(t, "->"@) && !contains_seq(t, "</"@)
            &&& forall|k: int| 0 <= k < 30 ==> !contains_seq(t, #[trigger] ks[k]@)
        }),
    ensures
        !looks_like_code(text),
{
    let ks = code_keywords();
    assert(seq![
                "fn ",
                "function",
                "const ",
                "let ",
                "var ",
                "return ",
                "import ",
                "from ",
                "export ",
                "class ",
                "def ",
                "pub ",
                "static ",
                "struct ",
                "enum ",
                "interface ",
                "type ",
                "if (",
                "for (",
                "while (",
                "async ",
                "await ",
                "SELECT ",
                "INSERT ",
                "UPDATE ",
                "DELETE ",
                "docker run",
                "npm ",
                "cargo ",
                "#include",
            ] =~= ks);
    lemma_no_hits(trim(text), ks);
}

} // verus!
