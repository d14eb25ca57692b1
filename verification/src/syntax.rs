use vstd::prelude::*;
use vstd::string::StringExecFns;
use vstd::utf8::encode_utf8;
use crate::grid::Color;

verus! {

/// The kinds of text that syntax highlighting tells apart.
#[derive(Debug, Clone, Copy, PartialEq, Eq, Structural)]
pub enum HighlightGroup {
    Keyword,
    Comment,
    String,
    Function,
    Type,
    Number,
    Operator,
    Default,
}

/// The color that each group is drawn in.
pub open spec fn group_color(g: HighlightGroup) -> Color {
    match g {
        HighlightGroup::Keyword => Color::Yellow,
        HighlightGroup::Comment => Color::Blue,
        HighlightGroup::String => Color::Green,
        HighlightGroup::Function => Color::Cyan,
        HighlightGroup::Type => Color::Magenta,
        HighlightGroup::Number => Color::Red,
        HighlightGroup::Operator => Color::White,
        HighlightGroup::Default => Color::Default,
    }
}

impl HighlightGroup {
    /// The color of this group.
    pub fn color(&self) -> (c: Color)
        ensures
            c == group_color(*self),
    {
        match self {
            HighlightGroup::Keyword => Color::Yellow,
            HighlightGroup::Comment => Color::Blue,
            HighlightGroup::String => Color::Green,
            HighlightGroup::Function => Color::Cyan,
            HighlightGroup::Type => Color::Magenta,
            HighlightGroup::Number => Color::Red,
            HighlightGroup::Operator => Color::White,
            HighlightGroup::Default => Color::Default,
        }
    }
}

/// The matches, as byte ranges, that the regular expression `pattern`
/// finds in `text`, one after another without overlap; `None` where the
/// pattern does not compile.
pub uninterp spec fn spec_regex_find_all(pattern: Seq<char>, text: Seq<char>) -> Option<Seq<(usize, usize)>>;

/// `regex::Regex::new` on `pattern`, then `Regex::find_iter` on `text`,
/// each match taken as its `start()` and `end()`. The result is named by
/// `spec_regex_find_all`; the crate documents that a match starts no
/// later than it ends, within the text.
#[verifier::external_body]
pub(crate) fn regex_find_all(pattern: &str, text: &str) -> (r: Option<Vec<(usize, usize)>>)
    ensures
        match r {
            Some(v) => spec_regex_find_all(pattern@, text@) == Some(v@)
                && forall|k: int| 0 <= k < v@.len() ==> #[trigger] v@[k].0 <= v@[k].1 <= encode_utf8(text@).len(),
            None => spec_regex_find_all(pattern@, text@) is None,
        },
{
    match regex::Regex::new(pattern) {
        Ok(re) => Some(re.find_iter(text).map(|m| (m.start(), m.end())).collect()),
        Err(_) => None,
    }
}

/// A regular expression and the group of the text it matches.
pub struct SyntaxRule {
    pub pattern: String,
    pub group: HighlightGroup,
}

/// Highlighting rules, applied in order.
pub struct SyntaxHighlighter {
    pub rules: Vec<SyntaxRule>,
}

/// The highlights of one rule: each match with the rule's group; none
/// where the pattern does not compile.
pub open spec fn rule_matches(rule: SyntaxRule, line: Seq<char>) -> Seq<(usize, usize, HighlightGroup)> {
    match spec_regex_find_all(rule.pattern@, line) {
        Some(ms) => Seq::new(ms.len(), |k: int| (ms[k].0, ms[k].1, rule.group)),
        None => Seq::empty(),
    }
}

/// The highlights of all rules, rule by rule.
pub open spec fn rules_highlights(rules: Seq<SyntaxRule>, line: Seq<char>) -> Seq<(usize, usize, HighlightGroup)>
    decreases rules.len(),
{
    if rules.len() == 0 {
        Seq::empty()
    } else {
        rules_highlights(rules.drop_last(), line) + rule_matches(rules.last(), line)
    }
}

/// The keywords of Rust that are highlighted.
pub open spec fn rust_keywords() -> Seq<Seq<char>> {
    seq![
        "fn"@, "let"@, "mut"@, "pub"@, "use"@, "mod"@, "struct"@, "enum"@, "impl"@,
        "trait"@, "match"@, "if"@, "else"@, "for"@, "while"@, "return"@, "true"@, "false"@,
    ]
}

/// The pattern that matches a whole word.
pub open spec fn word_pattern(w: Seq<char>) -> Seq<char> {
    "\\b"@ + w + "\\b"@
}

fn push_keyword_rule(rules: &mut Vec<SyntaxRule>, k: &str)
    ensures
        final(rules)@.len() == old(rules)@.len() + 1,
        forall|i: int| 0 <= i < old(rules)@.len() ==> #[trigger] final(rules)@[i] == old(rules)@[i],
        final(rules)@.last().pattern@ == word_pattern(k@),
        final(rules)@.last().group == HighlightGroup::Keyword,
{
    let mut p = String::new();
    p.append("\\b");
    p.append(k);
    p.append("\\b");
    rules.push(SyntaxRule { pattern: p, group: HighlightGroup::Keyword });
}

impl SyntaxHighlighter {
    /// The rules for Rust: each keyword as a whole word, line comments and
    /// string literals.
    pub fn new_rust() -> (h: SyntaxHighlighter)
        ensures
            h.rules@.len() == 20,
            forall|i: int| 0 <= i < 18 ==> (#[trigger] h.rules@[i]).pattern@ == word_pattern(rust_keywords()[i])
                && h.rules@[i].group == HighlightGroup::Keyword,
            h.rules@[18].pattern@ == "//.*"@,
            h.rules@[18].group == HighlightGroup::Comment,
            h.rules@[19].pattern@ == "\"[^\"]*\""@,
            h.rules@[19].group == HighlightGroup::String,
    {
        let keywords: Vec<&str> = vec![
            "fn", "let", "mut", "pub", "use", "mod", "struct", "enum", "impl",
            "trait", "match", "if", "else", "for", "while", "return", "true", "false",
        ];
        assert(keywords@.len() == 18);
        let mut rules: Vec<SyntaxRule> = Vec::new();
        let mut i: usize = 0;
        while i < keywords.len()
            invariant
                i <= keywords@.len(),
                keywords@.len() == 18,
                forall|j: int| 0 <= j < 18 ==> #[trigger] keywords@[j]@ == rust_keywords()[j],
                rules@.len() == i,
                forall|j: int| 0 <= j < i ==> (#[trigger] rules@[j]).pattern@ == word_pattern(rust_keywords()[j])
                    && rules@[j].group == HighlightGroup::Keyword,
            decreases keywords@.len() - i,
        {
            push_keyword_rule(&mut rules, keywords[i]);
            i += 1;
        }
        let mut c = String::new();
        c.append("//.*");
        rules.push(SyntaxRule { pattern: c, group: HighlightGroup::Comment });
        let mut s = String::new();
        s.append("\"[^\"]*\"");
        rules.push(SyntaxRule { pattern: s, group: HighlightGroup::String });
        SyntaxHighlighter { rules }
    }

    /// The highlights of `line`: for each rule in order, its matches, as
    /// byte ranges with the rule's group.
    pub fn highlight_line(&self, line: &str) -> (r: Vec<(usize, usize, HighlightGroup)>)
        ensures
            r@ == rules_highlights(self.rules@, line@),
    {
        let mut out: Vec<(usize, usize, HighlightGroup)> = Vec::new();
        let mut i: usize = 0;
        while i < self.rules.len()
            invariant
                i <= self.rules@.len(),
                out@ == rules_highlights(self.rules@.take(i as int), line@),
            decreases self.rules@.len() - i,
        {
            let rule = &self.rules[i];
            let ghost before = out@;
            match regex_find_all(rule.pattern.as_str(), line) {
                Some(ms) => {
                    let mut k: usize = 0;
                    while k < ms.len()
                        invariant
                            k <= ms@.len(),
                            out@ == before + Seq::new(k as nat, |t: int| (ms@[t].0, ms@[t].1, rule.group)),
                        decreases ms@.len() - k,
                    {
                        out.push((ms[k].0, ms[k].1, rule.group));
                        assert(out@ =~= before + Seq::new(k as nat + 1, |t: int| (ms@[t].0, ms@[t].1, rule.group)));
                        k += 1;
                    }
                    assert(out@ =~= before + rule_matches(*rule, line@));
                },
                None => {
                    assert(out@ =~= before + rule_matches(*rule, line@));
                },
            }
            assert(self.rules@.take(i as int + 1).drop_last() =~= self.rules@.take(i as int));
            i += 1;
        }
        assert(self.rules@.take(self.rules@.len() as int) =~= self.rules@);
        out
    }
}

} // verus!
