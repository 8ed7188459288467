//! Canonical store of identifiers and reserved words. The table is seeded
//! with the fourteen reserved words at construction; identifiers found by
//! the scanner are added as they appear. Viewed as a map from lexeme to
//! token.
use vstd::prelude::*;
use crate::token::Token;
use crate::token::TokenV;
use crate::token::spec_token_from_lexeme;

verus! {

pub struct SymbolTable {
    entries: Vec<(String, Token)>,
}

/// The map an entry list denotes; a later entry for the same key overrides
/// an earlier one, though the table keeps its keys unique.
pub open spec fn entries_map(s: Seq<(String, Token)>) -> Map<Seq<char>, TokenV>
    decreases s.len(),
{
    if s.len() == 0 {
        Map::empty()
    } else {
        entries_map(s.drop_last()).insert(s.last().0@, s.last().1@)
    }
}

pub open spec fn unique_keys(s: Seq<(String, Token)>) -> bool {
    forall|i: int, j: int|
        0 <= i < j < s.len() ==> (#[trigger] s[i]).0@ != (#[trigger] s[j]).0@
}

proof fn lemma_entries_map_domain(s: Seq<(String, Token)>, k: Seq<char>)
    ensures
        entries_map(s).contains_key(k) <==> exists|i: int|
            0 <= i < s.len() && (#[trigger] s[i]).0@ == k,
    decreases s.len(),
{
    if s.len() > 0 {
        lemma_entries_map_domain(s.drop_last(), k);
        if entries_map(s).contains_key(k) {
            if s.last().0@ != k {
                let i = choose|i: int|
                    0 <= i < s.drop_last().len() && (#[trigger] s.drop_last()[i]).0@ == k;
                assert(s[i].0@ == k);
            } else {
                assert(s[s.len() - 1].0@ == k);
            }
        }
        if exists|i: int| 0 <= i < s.len() && (#[trigger] s[i]).0@ == k {
            let i = choose|i: int| 0 <= i < s.len() && (#[trigger] s[i]).0@ == k;
            if i < s.len() - 1 {
                assert(s.drop_last()[i].0@ == k);
            }
        }
    }
}

proof fn lemma_entries_map_at(s: Seq<(String, Token)>, i: int)
    requires
        unique_keys(s),
        0 <= i < s.len(),
    ensures
        entries_map(s).contains_key(s[i].0@),
        entries_map(s)[s[i].0@] == s[i].1@,
    decreases s.len(),
{
    if i == s.len() - 1 {
        assert(s[i] == s.last());
    } else {
        assert(unique_keys(s.drop_last()));
        lemma_entries_map_at(s.drop_last(), i);
        assert(s.drop_last()[i] == s[i]);
        assert(s.last().0@ != s[i].0@);
    }
}

/// Updating the entry that already carries a key leaves the map with that
/// key bound to the new token and nothing else changed.
proof fn lemma_entries_map_update(s: Seq<(String, Token)>, i: int, p: (String, Token))
    requires
        unique_keys(s),
        0 <= i < s.len(),
        s[i].0@ == p.0@,
    ensures
        entries_map(s.update(i, p)) =~= entries_map(s).insert(p.0@, p.1@),
    decreases s.len(),
{
    if i == s.len() - 1 {
        assert(s.update(i, p).drop_last() =~= s.drop_last());
        assert(s.update(i, p).last() == p);
    } else {
        assert(unique_keys(s.drop_last()));
        assert(s.drop_last()[i] == s[i]);
        lemma_entries_map_update(s.drop_last(), i, p);
        assert(s.update(i, p).drop_last() =~= s.drop_last().update(i, p));
        assert(s.update(i, p).last() == s.last());
        assert(s.last().0@ != p.0@);
    }
}

/// The table the constructor builds: the fourteen reserved words, each
/// keyed by its own spelling.
pub open spec fn spec_reserved_map() -> Map<Seq<char>, TokenV> {
    Map::empty().insert("inicio"@, spec_token_from_lexeme("inicio"@)).insert(
        "varinicio"@,
        spec_token_from_lexeme("varinicio"@),
    ).insert("varfim"@, spec_token_from_lexeme("varfim"@)).insert(
        "escreva"@,
        spec_token_from_lexeme("escreva"@),
    ).insert("leia"@, spec_token_from_lexeme("leia"@)).insert(
        "se"@,
        spec_token_from_lexeme("se"@),
    ).insert("entao"@, spec_token_from_lexeme("entao"@)).insert(
        "fimse"@,
        spec_token_from_lexeme("fimse"@),
    ).insert("repita"@, spec_token_from_lexeme("repita"@)).insert(
        "fimrepita"@,
        spec_token_from_lexeme("fimrepita"@),
    ).insert("fim"@, spec_token_from_lexeme("fim"@)).insert(
        "inteiro"@,
        spec_token_from_lexeme("inteiro"@),
    ).insert("literal"@, spec_token_from_lexeme("literal"@)).insert(
        "real"@,
        spec_token_from_lexeme("real"@),
    )
}

impl View for SymbolTable {
    type V = Map<Seq<char>, TokenV>;

    closed spec fn view(&self) -> Map<Seq<char>, TokenV> {
        entries_map(self.entries@)
    }
}

impl SymbolTable {
    pub closed spec fn wf(&self) -> bool {
        unique_keys(self.entries@)
    }

    /// A fresh table holding exactly the reserved words.
    pub fn new() -> (r: SymbolTable)
        ensures
            r.wf(),
            r@ == spec_reserved_map(),
    {
        let mut table = SymbolTable { entries: Vec::new() };
        table.insert("inicio".to_owned(), Token::new_from_lexeme("inicio"));
        table.insert("varinicio".to_owned(), Token::new_from_lexeme("varinicio"));
        table.insert("varfim".to_owned(), Token::new_from_lexeme("varfim"));
        table.insert("escreva".to_owned(), Token::new_from_lexeme("escreva"));
        table.insert("leia".to_owned(), Token::new_from_lexeme("leia"));
        table.insert("se".to_owned(), Token::new_from_lexeme("se"));
        table.insert("entao".to_owned(), Token::new_from_lexeme("entao"));
        table.insert("fimse".to_owned(), Token::new_from_lexeme("fimse"));
        table.insert("repita".to_owned(), Token::new_from_lexeme("repita"));
        table.insert("fimrepita".to_owned(), Token::new_from_lexeme("fimrepita"));
        table.insert("fim".to_owned(), Token::new_from_lexeme("fim"));
        table.insert("inteiro".to_owned(), Token::new_from_lexeme("inteiro"));
        table.insert("literal".to_owned(), Token::new_from_lexeme("literal"));
        table.insert("real".to_owned(), Token::new_from_lexeme("real"));
        table
    }

    /// A copy of the stored token for this lexeme, if one is stored.
    pub fn get(&self, lexeme: String) -> (r: Option<Token>)
        requires
            self.wf(),
        ensures
            match r {
                Some(token) => self@.contains_key(lexeme@) && token@ == self@[lexeme@],
                None => !self@.contains_key(lexeme@),
            },
    {
        let n = self.entries.len();
        let mut i: usize = 0;
        while i < n
            invariant
                0 <= i <= n,
                n == self.entries@.len(),
                forall|j: int| 0 <= j < i ==> (#[trigger] self.entries@[j]).0@ != lexeme@,
            decreases n - i,
        {
            if self.entries[i].0 == lexeme {
                let token = Token::new_from_ref(&self.entries[i].1);
                proof {
                    lemma_entries_map_at(self.entries@, i as int);
                }
                return Some(token);
            }
            i = i + 1;
        }
        proof {
            lemma_entries_map_domain(self.entries@, lexeme@);
        }
        None
    }

    /// Unconditional store: a token already keyed by this lexeme is
    /// replaced, otherwise the pair is added.
    pub fn insert(&mut self, lexeme: String, token: Token)
        requires
            old(self).wf(),
        ensures
            final(self).wf(),
            final(self)@ == old(self)@.insert(lexeme@, token@),
    {
        let n = self.entries.len();
        let mut i: usize = 0;
        while i < n
            invariant
                0 <= i <= n,
                n == self.entries@.len(),
                self.entries@ == old(self).entries@,
                forall|j: int| 0 <= j < i ==> (#[trigger] self.entries@[j]).0@ != lexeme@,
            decreases n - i,
        {
            if self.entries[i].0 == lexeme {
                proof {
                    lemma_entries_map_update(self.entries@, i as int, (lexeme, token));
                }
                self.entries.set(i, (lexeme, token));
                return ;
            }
            i = i + 1;
        }
        self.entries.push((lexeme, token));
        proof {
            assert(self.entries@.drop_last() =~= old(self).entries@);
        }
    }

    /// Replace the stored token only when the lexeme is already a key.
    pub fn update(&mut self, lexeme: String, token: Token)
        requires
            old(self).wf(),
        ensures
            final(self).wf(),
            final(self)@ == if old(self)@.contains_key(lexeme@) {
                old(self)@.insert(lexeme@, token@)
            } else {
                old(self)@
            },
    {
        let probe = self.get(lexeme.clone());
        match probe {
            Some(_) => self.insert(lexeme, token),
            None => (),
        }
    }

    /// The stored entries, for walking the table from the outside.
    pub fn iter(&self) -> (r: &Vec<(String, Token)>)
        ensures
            entries_map(r@) == self@,
            unique_keys(r@) == self.wf(),
    {
        &self.entries
    }
}


/// Inserting any single reserved word into a fresh table twice yields the
/// same map, and so the same mapping size, as inserting it once; and since
/// the word is already seeded, the size equals the fresh table's.
pub proof fn lemma_insert_reserved_twice(lexeme: Seq<char>, t: TokenV)
    requires
        spec_reserved_map().contains_key(lexeme),
    ensures
        spec_reserved_map().insert(lexeme, t).insert(lexeme, t) == spec_reserved_map().insert(
            lexeme,
            t,
        ),
        spec_reserved_map().insert(lexeme, t).dom() == spec_reserved_map().dom(),
{
    assert(spec_reserved_map().insert(lexeme, t).insert(lexeme, t) =~= spec_reserved_map().insert(
        lexeme,
        t,
    ));
    assert(spec_reserved_map().insert(lexeme, t).dom() =~= spec_reserved_map().dom());
}

/// Building the symbol table twice yields identical maps: the constructor
/// pins its result to the one reserved-word map.
pub proof fn lemma_build_deterministic(m1: Map<Seq<char>, TokenV>, m2: Map<Seq<char>, TokenV>)
    requires
        m1 == spec_reserved_map(),
        m2 == spec_reserved_map(),
    ensures
        m1 == m2,
{
}

} // verus!
