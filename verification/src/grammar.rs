//! The fixed context-free grammar. Rules are numbered in declaration order;
//! rule 0 is the augmented start. A symbol is terminal exactly when its
//! text holds no upper-case letter, the casing convention the whole rule
//! set relies on.
use vstd::prelude::*;
use crate::text::all_lowercase;
use crate::text::spec_all_lowercase;
use crate::text::split_spaces;
use crate::text::spec_split_spaces;

verus! {

pub struct AlphabetItem {
    pub text: String,
    pub terminal: bool,
}

pub ghost struct AlphabetItemV {
    pub text: Seq<char>,
    pub terminal: bool,
}

impl View for AlphabetItem {
    type V = AlphabetItemV;

    open spec fn view(&self) -> AlphabetItemV {
        AlphabetItemV { text: self.text@, terminal: self.terminal }
    }
}

impl DeepView for AlphabetItem {
    type V = AlphabetItemV;

    open spec fn deep_view(&self) -> AlphabetItemV {
        self.view()
    }
}

pub struct GrammarRule {
    pub left: AlphabetItem,
    pub right: Vec<AlphabetItem>,
}

pub ghost struct GrammarRuleV {
    pub left: AlphabetItemV,
    pub right: Seq<AlphabetItemV>,
}

impl View for GrammarRule {
    type V = GrammarRuleV;

    open spec fn view(&self) -> GrammarRuleV {
        GrammarRuleV { left: self.left@, right: self.right.deep_view() }
    }
}

impl DeepView for GrammarRule {
    type V = GrammarRuleV;

    open spec fn deep_view(&self) -> GrammarRuleV {
        self.view()
    }
}

/// The rule a (left, right) pair of texts denotes: the left symbol is a
/// non-terminal, the right-hand side is split at spaces and each word
/// classified by casing.
pub open spec fn spec_rule(left: Seq<char>, right: Seq<char>) -> GrammarRuleV {
    GrammarRuleV {
        left: AlphabetItemV { text: left, terminal: false },
        right: spec_split_spaces(right).map_values(
            |t: Seq<char>| AlphabetItemV { text: t, terminal: spec_all_lowercase(t) },
        ),
    }
}

/// The whole rule list, in its fixed order.
pub open spec fn spec_grammar() -> Seq<GrammarRuleV> {
    seq![
        spec_rule("P'"@, "P"@),
        spec_rule("P"@, "inicio V A"@),
        spec_rule("V"@, "varinicio LV"@),
        spec_rule("LV"@, "D LV"@),
        spec_rule("LV"@, "varfim pt_v"@),
        spec_rule("D"@, "TIPO L pt_v"@),
        spec_rule("L"@, "id vir L"@),
        spec_rule("L"@, "id"@),
        spec_rule("TIPO"@, "inteiro"@),
        spec_rule("TIPO"@, "real"@),
        spec_rule("TIPO"@, "literal"@),
        spec_rule("A"@, "ES A"@),
        spec_rule("ES"@, "leia id pt_v"@),
        spec_rule("ES"@, "escreva ARG pt_v"@),
        spec_rule("ARG"@, "lit"@),
        spec_rule("ARG"@, "num"@),
        spec_rule("ARG"@, "id"@),
        spec_rule("A"@, "CMD A"@),
        spec_rule("CMD"@, "id rcb LD pt_v"@),
        spec_rule("LD"@, "OPRD opm OPRD"@),
        spec_rule("LD"@, "OPRD"@),
        spec_rule("OPRD"@, "id"@),
        spec_rule("OPRD"@, "num"@),
        spec_rule("A"@, "COND A"@),
        spec_rule("COND"@, "CAB CP"@),
        spec_rule("CAB"@, "se ab_p EXP_R fc_p entao"@),
        spec_rule("EXP_R"@, "OPRD opr OPRD"@),
        spec_rule("CP"@, "ES CP"@),
        spec_rule("CP"@, "CMD CP"@),
        spec_rule("CP"@, "COND CP"@),
        spec_rule("CP"@, "fimse"@),
        spec_rule("A"@, "R A"@),
        spec_rule("R"@, "CABR CPR"@),
        spec_rule("CABR"@, "repita ab_p EXP_R fc_p"@),
        spec_rule("CPR"@, "ES CPR"@),
        spec_rule("CPR"@, "CMD CPR"@),
        spec_rule("CPR"@, "COND CPR"@),
        spec_rule("CPR"@, "fimrepita"@),
        spec_rule("A"@, "fim"@),
    ]
}

pub struct Grammar {
    rules: Vec<GrammarRule>,
}

impl View for Grammar {
    type V = Seq<GrammarRuleV>;

    closed spec fn view(&self) -> Seq<GrammarRuleV> {
        self.rules.deep_view()
    }
}

fn clone_item(item: &AlphabetItem) -> (r: AlphabetItem)
    ensures
        r@ == item@,
{
    AlphabetItem { text: item.text.clone(), terminal: item.terminal }
}

impl Grammar {
    /// The grammar with its fixed rule list.
    pub fn new() -> (r: Grammar)
        ensures
            r@ == spec_grammar(),
    {
        let mut grammar = Grammar { rules: Vec::new() };
        grammar.init_rules();
        proof {
            assert(Seq::<GrammarRuleV>::empty() + spec_grammar() =~= spec_grammar());
        }
        grammar
    }

    /// The number of rules.
    pub fn len(&self) -> (r: usize)
        ensures
            r == self@.len(),
    {
        self.rules.len()
    }

    /// A copy of the rule with this number.
    pub fn get_rule(&self, index: usize) -> (r: GrammarRule)
        requires
            index < self@.len(),
        ensures
            r@ == self@[index as int],
    {
        let rule = &self.rules[index];
        let left = clone_item(&rule.left);
        let mut right: Vec<AlphabetItem> = Vec::new();
        let n = rule.right.len();
        let mut i: usize = 0;
        while i < n
            invariant
                0 <= i <= n,
                n == rule.right@.len(),
                right.deep_view() =~= rule.right.deep_view().take(i as int),
            decreases n - i,
        {
            let ghost prev = right.deep_view();
            right.push(clone_item(&rule.right[i]));
            proof {
                assert(right.deep_view() =~~= prev.push(rule.right.deep_view()[i as int]));
                assert(right.deep_view() =~= rule.right.deep_view().take(i + 1));
            }
            i = i + 1;
        }
        proof {
            assert(rule.right.deep_view().take(n as int) =~= rule.right.deep_view());
            assert(self@[index as int] == self.rules@[index as int].deep_view());
        }
        GrammarRule { left, right }
    }

    fn add_rule(&mut self, left_str: &str, right_str: &str)
        ensures
            final(self)@ == old(self)@.push(spec_rule(left_str@, right_str@)),
    {
        let left = AlphabetItem { text: left_str.to_owned(), terminal: false };
        let words = split_spaces(right_str);
        let mut right: Vec<AlphabetItem> = Vec::new();
        let n = words.len();
        let mut i: usize = 0;
        while i < n
            invariant
                0 <= i <= n,
                n == words@.len(),
                words.deep_view() == spec_split_spaces(right_str@),
                right.deep_view() =~= spec_rule(left_str@, right_str@).right.take(i as int),
            decreases n - i,
        {
            let word = &words[i];
            let terminal = all_lowercase(word.as_str());
            let ghost prev = right.deep_view();
            right.push(AlphabetItem { text: word.clone(), terminal });
            proof {
                assert(words@[i as int]@ == words.deep_view()[i as int]);
                assert(right.deep_view() =~~= prev.push(
                    AlphabetItemV {
                        text: words.deep_view()[i as int],
                        terminal: spec_all_lowercase(words.deep_view()[i as int]),
                    },
                ));
                assert(right.deep_view() =~= spec_rule(left_str@, right_str@).right.take(i + 1));
            }
            i = i + 1;
        }
        proof {
            assert(spec_rule(left_str@, right_str@).right.take(n as int) =~= spec_rule(
                left_str@,
                right_str@,
            ).right);
        }
        let ghost prev_rules = self@;
        self.rules.push(GrammarRule { left, right });
        proof {
            assert(self@ =~~= prev_rules.push(spec_rule(left_str@, right_str@)));
        }
    }

    fn init_rules(&mut self)
        ensures
            final(self)@ == old(self)@ + spec_grammar(),
    {
        self.add_rule("P'", "P");
        self.add_rule("P", "inicio V A");
        self.add_rule("V", "varinicio LV");
        self.add_rule("LV", "D LV");
        self.add_rule("LV", "varfim pt_v");
        self.add_rule("D", "TIPO L pt_v");
        self.add_rule("L", "id vir L");
        self.add_rule("L", "id");
        self.add_rule("TIPO", "inteiro");
        self.add_rule("TIPO", "real");
        self.add_rule("TIPO", "literal");
        self.add_rule("A", "ES A");
        self.add_rule("ES", "leia id pt_v");
        self.add_rule("ES", "escreva ARG pt_v");
        self.add_rule("ARG", "lit");
        self.add_rule("ARG", "num");
        self.add_rule("ARG", "id");
        self.add_rule("A", "CMD A");
        self.add_rule("CMD", "id rcb LD pt_v");
        self.add_rule("LD", "OPRD opm OPRD");
        self.add_rule("LD", "OPRD");
        self.add_rule("OPRD", "id");
        self.add_rule("OPRD", "num");
        self.add_rule("A", "COND A");
        self.add_rule("COND", "CAB CP");
        self.add_rule("CAB", "se ab_p EXP_R fc_p entao");
        self.add_rule("EXP_R", "OPRD opr OPRD");
        self.add_rule("CP", "ES CP");
        self.add_rule("CP", "CMD CP");
        self.add_rule("CP", "COND CP");
        self.add_rule("CP", "fimse");
        self.add_rule("A", "R A");
        self.add_rule("R", "CABR CPR");
        self.add_rule("CABR", "repita ab_p EXP_R fc_p");
        self.add_rule("CPR", "ES CPR");
        self.add_rule("CPR", "CMD CPR");
        self.add_rule("CPR", "COND CPR");
        self.add_rule("CPR", "fimrepita");
        self.add_rule("A", "fim");
        proof {
            assert(final(self)@ =~= old(self)@ + spec_grammar());
        }
    }
}

} // verus!
