//! The SLR(1) driving tables, decoded from comma-separated lines. The
//! Action table maps (state, terminal name) to a shift, reduce, accept or
//! error action, a missing entry meaning error 0 by convention; the Goto
//! table maps (state, non-terminal name) to a state, with 0 in a cell
//! meaning the entry is undefined.
use vstd::prelude::*;
use crate::text::parse_u8;
use crate::text::spec_parse_u8;
use crate::text::split_commas;
use crate::text::spec_split_commas;

verus! {

#[derive(Clone, Copy, Debug, PartialEq, Eq, Structural)]
pub enum SLRAction {
    S(u8),
    R(u8),
    Acc,
    E(u8),
}

/// What an Action-table cell means: the letter names the action kind, the
/// digits behind it the state, rule or error code; anything unreadable is
/// error 0.
pub open spec fn spec_action_from_str(s: Seq<char>) -> SLRAction {
    if s.len() == 0 {
        SLRAction::E(0)
    } else {
        let k = s[0];
        let n = match spec_parse_u8(s.drop_first()) {
            Some(v) => v,
            None => 0u8,
        };
        if k == 'S' || k == 's' {
            SLRAction::S(n)
        } else if k == 'R' || k == 'r' {
            SLRAction::R(n)
        } else if k == 'A' || k == 'a' {
            SLRAction::Acc
        } else if k == 'E' || k == 'e' {
            SLRAction::E(n)
        } else {
            SLRAction::E(0)
        }
    }
}

impl SLRAction {
    pub fn from_str(s: &str) -> (r: SLRAction)
        ensures
            r == spec_action_from_str(s@),
    {
        let n = s.unicode_len();
        if n == 0 {
            return SLRAction::E(0);
        }
        let k = s.get_char(0);
        let rest = s.substring_char(1, n);
        proof {
            assert(rest@ =~= s@.drop_first());
        }
        let v: u8 = match parse_u8(rest) {
            Some(v) => v,
            None => 0,
        };
        if k == 'S' || k == 's' {
            SLRAction::S(v)
        } else if k == 'R' || k == 'r' {
            SLRAction::R(v)
        } else if k == 'A' || k == 'a' {
            SLRAction::Acc
        } else if k == 'E' || k == 'e' {
            SLRAction::E(v)
        } else {
            SLRAction::E(0)
        }
    }
}

/// The key a stored entry is found under.
pub open spec fn entry_key<V>(e: (u8, String, V)) -> (int, Seq<char>) {
    (e.0 as int, e.1@)
}

/// The map an entry list denotes.
pub open spec fn entries_table<V>(s: Seq<(u8, String, V)>) -> Map<(int, Seq<char>), V>
    decreases s.len(),
{
    if s.len() == 0 {
        Map::empty()
    } else {
        entries_table(s.drop_last()).insert(entry_key(s.last()), s.last().2)
    }
}

pub open spec fn entry_keys_unique<V>(s: Seq<(u8, String, V)>) -> bool {
    forall|i: int, j: int|
        0 <= i < j < s.len() ==> entry_key(#[trigger] s[i]) != entry_key(#[trigger] s[j])
}

proof fn lemma_entries_table_domain<V>(s: Seq<(u8, String, V)>, k: (int, Seq<char>))
    ensures
        entries_table(s).contains_key(k) <==> exists|i: int|
            0 <= i < s.len() && entry_key(#[trigger] s[i]) == k,
    decreases s.len(),
{
    if s.len() > 0 {
        lemma_entries_table_domain(s.drop_last(), k);
        if entries_table(s).contains_key(k) {
            if entry_key(s.last()) != k {
                let i = choose|i: int|
                    0 <= i < s.drop_last().len() && entry_key(#[trigger] s.drop_last()[i]) == k;
                assert(entry_key(s[i]) == k);
            } else {
                assert(entry_key(s[s.len() - 1]) == k);
            }
        }
        if exists|i: int| 0 <= i < s.len() && entry_key(#[trigger] s[i]) == k {
            let i = choose|i: int| 0 <= i < s.len() && entry_key(#[trigger] s[i]) == k;
            if i < s.len() - 1 {
                assert(entry_key(s.drop_last()[i]) == k);
            }
        }
    }
}

proof fn lemma_entries_table_at<V>(s: Seq<(u8, String, V)>, i: int)
    requires
        entry_keys_unique(s),
        0 <= i < s.len(),
    ensures
        entries_table(s).contains_key(entry_key(s[i])),
        entries_table(s)[entry_key(s[i])] == s[i].2,
    decreases s.len(),
{
    if i == s.len() - 1 {
        assert(s[i] == s.last());
    } else {
        assert(entry_keys_unique(s.drop_last()));
        lemma_entries_table_at(s.drop_last(), i);
        assert(s.drop_last()[i] == s[i]);
        assert(entry_key(s.last()) != entry_key(s[i]));
    }
}

proof fn lemma_entries_table_update<V>(s: Seq<(u8, String, V)>, i: int, p: (u8, String, V))
    requires
        entry_keys_unique(s),
        0 <= i < s.len(),
        entry_key(s[i]) == entry_key(p),
    ensures
        entries_table(s.update(i, p)) =~= entries_table(s).insert(entry_key(p), p.2),
    decreases s.len(),
{
    if i == s.len() - 1 {
        assert(s.update(i, p).drop_last() =~= s.drop_last());
        assert(s.update(i, p).last() == p);
    } else {
        assert(entry_keys_unique(s.drop_last()));
        assert(s.drop_last()[i] == s[i]);
        lemma_entries_table_update(s.drop_last(), i, p);
        assert(s.update(i, p).drop_last() =~= s.drop_last().update(i, p));
        assert(s.update(i, p).last() == s.last());
        assert(entry_key(s.last()) != entry_key(p));
    }
}

/// With unique keys the map holds exactly one binding per entry.
proof fn lemma_entries_table_len<V>(s: Seq<(u8, String, V)>)
    requires
        entry_keys_unique(s),
    ensures
        entries_table(s).dom().finite(),
        entries_table(s).len() == s.len(),
    decreases s.len(),
{
    if s.len() > 0 {
        assert(entry_keys_unique(s.drop_last()));
        lemma_entries_table_len(s.drop_last());
        lemma_entries_table_domain(s.drop_last(), entry_key(s.last()));
        assert(forall|i: int|
            0 <= i < s.drop_last().len() ==> entry_key(#[trigger] s.drop_last()[i]) != entry_key(
                s.last(),
            ));
        assert(!entries_table(s.drop_last()).contains_key(entry_key(s.last())));
    }
}

/// The 25 terminal names, in the fixed column order of the Action table.
pub open spec fn spec_terminals() -> Seq<Seq<char>> {
    seq![
        "inicio"@,
        "varinicio"@,
        "varfim"@,
        "pt_v"@,
        "id"@,
        "vir"@,
        "inteiro"@,
        "real"@,
        "literal"@,
        "leia"@,
        "escreva"@,
        "lit"@,
        "num"@,
        "rcb"@,
        "opm"@,
        "se"@,
        "ab_p"@,
        "fc_p"@,
        "entao"@,
        "opr"@,
        "fimse"@,
        "repita"@,
        "fimrepita"@,
        "fim"@,
        "eof"@,
    ]
}

fn action_terminals() -> (r: Vec<String>)
    ensures
        r.deep_view() == spec_terminals(),
        r@.len() == 25,
{
    let mut v: Vec<String> = Vec::new();
    v.push("inicio".to_owned());
    v.push("varinicio".to_owned());
    v.push("varfim".to_owned());
    v.push("pt_v".to_owned());
    v.push("id".to_owned());
    v.push("vir".to_owned());
    v.push("inteiro".to_owned());
    v.push("real".to_owned());
    v.push("literal".to_owned());
    v.push("leia".to_owned());
    v.push("escreva".to_owned());
    v.push("lit".to_owned());
    v.push("num".to_owned());
    v.push("rcb".to_owned());
    v.push("opm".to_owned());
    v.push("se".to_owned());
    v.push("ab_p".to_owned());
    v.push("fc_p".to_owned());
    v.push("entao".to_owned());
    v.push("opr".to_owned());
    v.push("fimse".to_owned());
    v.push("repita".to_owned());
    v.push("fimrepita".to_owned());
    v.push("fim".to_owned());
    v.push("eof".to_owned());
    proof {
        assert(v.deep_view() =~~= spec_terminals());
    }
    v
}

/// The 20 non-terminal names, in the fixed column order of the Goto table.
pub open spec fn spec_nonterminals() -> Seq<Seq<char>> {
    seq![
        "P'"@,
        "P"@,
        "V"@,
        "LV"@,
        "D"@,
        "L"@,
        "TIPO"@,
        "A"@,
        "ES"@,
        "ARG"@,
        "CMD"@,
        "LD"@,
        "OPRD"@,
        "COND"@,
        "CAB"@,
        "EXP_R"@,
        "CP"@,
        "R"@,
        "CABR"@,
        "CPR"@,
    ]
}

fn goto_nonterminals() -> (r: Vec<String>)
    ensures
        r.deep_view() == spec_nonterminals(),
        r@.len() == 20,
{
    let mut v: Vec<String> = Vec::new();
    v.push("P'".to_owned());
    v.push("P".to_owned());
    v.push("V".to_owned());
    v.push("LV".to_owned());
    v.push("D".to_owned());
    v.push("L".to_owned());
    v.push("TIPO".to_owned());
    v.push("A".to_owned());
    v.push("ES".to_owned());
    v.push("ARG".to_owned());
    v.push("CMD".to_owned());
    v.push("LD".to_owned());
    v.push("OPRD".to_owned());
    v.push("COND".to_owned());
    v.push("CAB".to_owned());
    v.push("EXP_R".to_owned());
    v.push("CP".to_owned());
    v.push("R".to_owned());
    v.push("CABR".to_owned());
    v.push("CPR".to_owned());
    proof {
        assert(v.deep_view() =~~= spec_nonterminals());
    }
    v
}

pub struct ActionTable {
    entries: Vec<(u8, String, SLRAction)>,
}

impl View for ActionTable {
    type V = Map<(int, Seq<char>), SLRAction>;

    closed spec fn view(&self) -> Map<(int, Seq<char>), SLRAction> {
        entries_table(self.entries@)
    }
}

/// One decoded row of the Action table: the 25 cells after the state cell,
/// bound column by column.
pub open spec fn spec_action_row(
    m: Map<(int, Seq<char>), SLRAction>,
    state: int,
    cells: Seq<Seq<char>>,
    i: int,
) -> Map<(int, Seq<char>), SLRAction>
    decreases 25 - i,
{
    if i < 0 || i >= 25 {
        m
    } else {
        spec_action_row(
            m.insert((state, spec_terminals()[i]), spec_action_from_str(cells[i + 1])),
            state,
            cells,
            i + 1,
        )
    }
}

/// The rows of the Action table from line `j` on; the first line is the
/// header and is never read. A row must have a readable state number and a
/// cell per terminal.
pub open spec fn spec_action_rows(
    lines: Seq<Seq<char>>,
    j: int,
    m: Map<(int, Seq<char>), SLRAction>,
) -> Option<Map<(int, Seq<char>), SLRAction>>
    decreases lines.len() - j,
{
    if j < 0 || j >= lines.len() {
        Some(m)
    } else {
        let cells = spec_split_commas(lines[j]);
        match spec_parse_u8(cells[0]) {
            None => None,
            Some(state) => if cells.len() >= 26 {
                spec_action_rows(lines, j + 1, spec_action_row(m, state as int, cells, 0))
            } else {
                None
            },
        }
    }
}

/// What the Action table's lines decode to.
pub open spec fn spec_action_table(lines: Seq<Seq<char>>) -> Option<
    Map<(int, Seq<char>), SLRAction>,
> {
    spec_action_rows(lines, 1, Map::empty())
}

/// A defined cell acts as stored; an absent one is error 0 by convention.
pub open spec fn spec_action_lookup(
    m: Map<(int, Seq<char>), SLRAction>,
    state: int,
    terminal: Seq<char>,
) -> SLRAction {
    if m.contains_key((state, terminal)) {
        m[(state, terminal)]
    } else {
        SLRAction::E(0)
    }
}

impl ActionTable {
    pub closed spec fn wf(&self) -> bool {
        entry_keys_unique(self.entries@)
    }

    fn insert(&mut self, state: u8, name: String, act: SLRAction)
        requires
            old(self).wf(),
        ensures
            final(self).wf(),
            final(self)@ == old(self)@.insert((state as int, name@), act),
    {
        let n = self.entries.len();
        let mut i: usize = 0;
        while i < n
            invariant
                0 <= i <= n,
                n == self.entries@.len(),
                self.entries@ == old(self).entries@,
                forall|j: int|
                    0 <= j < i ==> entry_key(#[trigger] self.entries@[j]) != (
                    state as int,
                    name@,
                ),
            decreases n - i,
        {
            if self.entries[i].0 == state && self.entries[i].1 == name {
                proof {
                    lemma_entries_table_update(
                        self.entries@,
                        i as int,
                        (state, name, act),
                    );
                }
                self.entries.set(i, (state, name, act));
                return ;
            }
            i = i + 1;
        }
        self.entries.push((state, name, act));
        proof {
            assert(self.entries@.drop_last() =~= old(self).entries@);
        }
    }

    /// Decode the Action table from its lines. `None` exactly when some row
    /// is too short or its state cell is unreadable.
    pub fn new(lines: &Vec<String>) -> (r: Option<ActionTable>)
        ensures
            match r {
                Some(t) => t.wf() && spec_action_table(lines.deep_view()) == Some(t@),
                None => spec_action_table(lines.deep_view()) is None,
            },
    {
        let terminals = action_terminals();
        let mut table = ActionTable { entries: Vec::new() };
        proof {
            assert(table@ =~= Map::<(int, Seq<char>), SLRAction>::empty());
        }
        let n = lines.len();
        let mut j: usize = 1;
        while j < n
            invariant
                1 <= j <= n || (n == 0 && j == 1),
                n == lines@.len(),
                terminals.deep_view() == spec_terminals(),
                terminals@.len() == 25,
                table.wf(),
                spec_action_table(lines.deep_view()) == spec_action_rows(
                    lines.deep_view(),
                    j as int,
                    table@,
                ),
            decreases n - j,
        {
            proof {
                assert(lines.deep_view()[j as int] == lines@[j as int]@);
            }
            let cells = split_commas(lines[j].as_str());
            let state: u8 = match parse_u8(cells[0].as_str()) {
                Some(v) => v,
                None => {
                    proof {
                        assert(cells.deep_view()[0] == cells@[0]@);
                    }
                    return None;
                },
            };
            proof {
                assert(cells.deep_view()[0] == cells@[0]@);
            }
            if cells.len() < 26 {
                return None;
            }
            let ghost row_start = table@;
            let mut i: usize = 0;
            while i < 25
                invariant
                    0 <= i <= 25,
                    cells@.len() >= 26,
                    cells.deep_view() == spec_split_commas(lines.deep_view()[j as int]),
                    terminals.deep_view() == spec_terminals(),
                    terminals@.len() == 25,
                    table.wf(),
                    spec_action_row(row_start, state as int, cells.deep_view(), 0)
                        == spec_action_row(table@, state as int, cells.deep_view(), i as int),
                decreases 25 - i,
            {
                proof {
                    assert(cells.deep_view()[i + 1] == cells@[i + 1]@);
                    assert(terminals.deep_view()[i as int] == terminals@[i as int]@);
                }
                let act = SLRAction::from_str(cells[i + 1].as_str());
                table.insert(state, terminals[i].clone(), act);
                i = i + 1;
            }
            j = j + 1;
        }
        Some(table)
    }

    /// The number of defined cells.
    pub fn len(&self) -> (r: usize)
        requires
            self.wf(),
        ensures
            r == self@.len(),
    {
        proof {
            lemma_entries_table_len(self.entries@);
        }
        self.entries.len()
    }

    /// The action for a (state, terminal name) pair; an absent entry is
    /// error 0 by convention.
    pub fn get(&self, key: &(u8, String)) -> (r: SLRAction)
        requires
            self.wf(),
        ensures
            r == spec_action_lookup(self@, key.0 as int, key.1@),
    {
        let n = self.entries.len();
        let mut i: usize = 0;
        while i < n
            invariant
                0 <= i <= n,
                n == self.entries@.len(),
                forall|j: int|
                    0 <= j < i ==> entry_key(#[trigger] self.entries@[j]) != (
                    key.0 as int,
                    key.1@,
                ),
            decreases n - i,
        {
            if self.entries[i].0 == key.0 && self.entries[i].1 == key.1 {
                proof {
                    lemma_entries_table_at(self.entries@, i as int);
                }
                return self.entries[i].2;
            }
            i = i + 1;
        }
        proof {
            lemma_entries_table_domain(self.entries@, (key.0 as int, key.1@));
        }
        SLRAction::E(0)
    }
}

pub struct GotoTable {
    entries: Vec<(u8, String, u8)>,
}

impl View for GotoTable {
    type V = Map<(int, Seq<char>), u8>;

    closed spec fn view(&self) -> Map<(int, Seq<char>), u8> {
        entries_table(self.entries@)
    }
}

/// One decoded row of the Goto table: every cell must be a readable number;
/// a 0 means the entry is undefined and nothing is stored.
pub open spec fn spec_goto_row(
    m: Map<(int, Seq<char>), u8>,
    state: int,
    cells: Seq<Seq<char>>,
    i: int,
) -> Option<Map<(int, Seq<char>), u8>>
    decreases 20 - i,
{
    if i < 0 || i >= 20 {
        Some(m)
    } else {
        match spec_parse_u8(cells[i + 1]) {
            None => None,
            Some(g) => if g == 0 {
                spec_goto_row(m, state, cells, i + 1)
            } else {
                spec_goto_row(m.insert((state, spec_nonterminals()[i]), g), state, cells, i + 1)
            },
        }
    }
}

pub open spec fn spec_goto_rows(
    lines: Seq<Seq<char>>,
    j: int,
    m: Map<(int, Seq<char>), u8>,
) -> Option<Map<(int, Seq<char>), u8>>
    decreases lines.len() - j,
{
    if j < 0 || j >= lines.len() {
        Some(m)
    } else {
        let cells = spec_split_commas(lines[j]);
        match spec_parse_u8(cells[0]) {
            None => None,
            Some(state) => if cells.len() >= 21 {
                match spec_goto_row(m, state as int, cells, 0) {
                    None => None,
                    Some(m2) => spec_goto_rows(lines, j + 1, m2),
                }
            } else {
                None
            },
        }
    }
}

/// What the Goto table's lines decode to.
pub open spec fn spec_goto_table(lines: Seq<Seq<char>>) -> Option<Map<(int, Seq<char>), u8>> {
    spec_goto_rows(lines, 1, Map::empty())
}

impl GotoTable {
    pub closed spec fn wf(&self) -> bool {
        entry_keys_unique(self.entries@)
    }

    fn insert(&mut self, state: u8, name: String, goto: u8)
        requires
            old(self).wf(),
        ensures
            final(self).wf(),
            final(self)@ == old(self)@.insert((state as int, name@), goto),
    {
        let n = self.entries.len();
        let mut i: usize = 0;
        while i < n
            invariant
                0 <= i <= n,
                n == self.entries@.len(),
                self.entries@ == old(self).entries@,
                forall|j: int|
                    0 <= j < i ==> entry_key(#[trigger] self.entries@[j]) != (
                    state as int,
                    name@,
                ),
            decreases n - i,
        {
            if self.entries[i].0 == state && self.entries[i].1 == name {
                proof {
                    lemma_entries_table_update(
                        self.entries@,
                        i as int,
                        (state, name, goto),
                    );
                }
                self.entries.set(i, (state, name, goto));
                return ;
            }
            i = i + 1;
        }
        self.entries.push((state, name, goto));
        proof {
            assert(self.entries@.drop_last() =~= old(self).entries@);
        }
    }

    /// Decode the Goto table from its lines. `None` exactly when some row
    /// is too short or holds an unreadable cell.
    pub fn new(lines: &Vec<String>) -> (r: Option<GotoTable>)
        ensures
            match r {
                Some(t) => t.wf() && spec_goto_table(lines.deep_view()) == Some(t@),
                None => spec_goto_table(lines.deep_view()) is None,
            },
    {
        let nonterminals = goto_nonterminals();
        let mut table = GotoTable { entries: Vec::new() };
        proof {
            assert(table@ =~= Map::<(int, Seq<char>), u8>::empty());
        }
        let n = lines.len();
        let mut j: usize = 1;
        while j < n
            invariant
                1 <= j <= n || (n == 0 && j == 1),
                n == lines@.len(),
                nonterminals.deep_view() == spec_nonterminals(),
                nonterminals@.len() == 20,
                table.wf(),
                spec_goto_table(lines.deep_view()) == spec_goto_rows(
                    lines.deep_view(),
                    j as int,
                    table@,
                ),
            decreases n - j,
        {
            proof {
                assert(lines.deep_view()[j as int] == lines@[j as int]@);
            }
            let cells = split_commas(lines[j].as_str());
            let state: u8 = match parse_u8(cells[0].as_str()) {
                Some(v) => v,
                None => {
                    proof {
                        assert(cells.deep_view()[0] == cells@[0]@);
                    }
                    return None;
                },
            };
            proof {
                assert(cells.deep_view()[0] == cells@[0]@);
            }
            if cells.len() < 21 {
                return None;
            }
            let ghost row_start = table@;
            let mut i: usize = 0;
            while i < 20
                invariant
                    0 <= i <= 20,
                    cells@.len() >= 21,
                    cells.deep_view() == spec_split_commas(lines.deep_view()[j as int]),
                    nonterminals.deep_view() == spec_nonterminals(),
                    nonterminals@.len() == 20,
                    table.wf(),
                    spec_goto_row(row_start, state as int, cells.deep_view(), 0) == spec_goto_row(
                        table@,
                        state as int,
                        cells.deep_view(),
                        i as int,
                    ),
                decreases 20 - i,
            {
                proof {
                    assert(cells.deep_view()[i + 1] == cells@[i + 1]@);
                    assert(nonterminals.deep_view()[i as int] == nonterminals@[i as int]@);
                }
                let g: u8 = match parse_u8(cells[i + 1].as_str()) {
                    Some(v) => v,
                    None => {
                        return None;
                    },
                };
                if g != 0 {
                    table.insert(state, nonterminals[i].clone(), g);
                }
                i = i + 1;
            }
            j = j + 1;
        }
        Some(table)
    }

    /// The number of defined cells.
    pub fn len(&self) -> (r: usize)
        requires
            self.wf(),
        ensures
            r == self@.len(),
    {
        proof {
            lemma_entries_table_len(self.entries@);
        }
        self.entries.len()
    }

    /// The goto state for a (state, non-terminal name) pair, if defined.
    pub fn get(&self, key: &(u8, String)) -> (r: Option<u8>)
        requires
            self.wf(),
        ensures
            match r {
                Some(g) => self@.contains_key((key.0 as int, key.1@)) && g == self@[
                    (key.0 as int, key.1@)
                ],
                None => !self@.contains_key((key.0 as int, key.1@)),
            },
    {
        let n = self.entries.len();
        let mut i: usize = 0;
        while i < n
            invariant
                0 <= i <= n,
                n == self.entries@.len(),
                forall|j: int|
                    0 <= j < i ==> entry_key(#[trigger] self.entries@[j]) != (
                    key.0 as int,
                    key.1@,
                ),
            decreases n - i,
        {
            if self.entries[i].0 == key.0 && self.entries[i].1 == key.1 {
                proof {
                    lemma_entries_table_at(self.entries@, i as int);
                }
                return Some(self.entries[i].2);
            }
            i = i + 1;
        }
        proof {
            lemma_entries_table_domain(self.entries@, (key.0 as int, key.1@));
        }
        None
    }
}


/// Building the tables twice from the same lines yields identical maps:
/// decoding is a function of the input lines alone.
pub proof fn lemma_tables_build_deterministic(
    lines: Seq<Seq<char>>,
    a1: Map<(int, Seq<char>), SLRAction>,
    a2: Map<(int, Seq<char>), SLRAction>,
    g1: Map<(int, Seq<char>), u8>,
    g2: Map<(int, Seq<char>), u8>,
)
    requires
        spec_action_table(lines) == Some(a1),
        spec_action_table(lines) == Some(a2),
        spec_goto_table(lines) == Some(g1),
        spec_goto_table(lines) == Some(g2),
    ensures
        a1 == a2,
        g1 == g2,
{
}

} // verus!
