//! Symbol resolution and encoding of assembly tokens into 16-bit machine words.
use vstd::prelude::*;

use crate::parser::{
    token_views, AddressInst, AddressView, CComp, CDest, CJump, ComputationInst, Token, TokenView,
};

verus! {

/// The first address handed to a variable.
pub const VAR_START: u16 = 16;

/// A symbol table as a list of (name, address) entries; a name stands for the address of
/// its first entry.
pub open spec fn lookup(t: Seq<(Seq<char>, u16)>, name: Seq<char>) -> Option<u16>
    decreases t.len(),
{
    if t.len() == 0 {
        None
    } else {
        match lookup(t.drop_last(), name) {
            Some(a) => Some(a),
            None => if t.last().0 == name {
                Some(t.last().1)
            } else {
                None
            },
        }
    }
}

/// The machine's predefined symbols.
pub open spec fn predefined() -> Seq<(Seq<char>, u16)> {
    seq![
        ("R0"@, 0u16),
        ("R1"@, 1u16),
        ("R2"@, 2u16),
        ("R3"@, 3u16),
        ("R4"@, 4u16),
        ("R5"@, 5u16),
        ("R6"@, 6u16),
        ("R7"@, 7u16),
        ("R8"@, 8u16),
        ("R9"@, 9u16),
        ("R10"@, 10u16),
        ("R11"@, 11u16),
        ("R12"@, 12u16),
        ("R13"@, 13u16),
        ("R14"@, 14u16),
        ("R15"@, 15u16),
        ("SCREEN"@, 16384u16),
        ("KBD"@, 24576u16),
        ("SP"@, 0u16),
        ("LCL"@, 1u16),
        ("ARG"@, 2u16),
        ("THIS"@, 3u16),
        ("THAT"@, 4u16),
    ]
}

/// The number of instructions (tokens other than labels) in `ts`.
pub open spec fn count_insts(ts: Seq<TokenView>) -> nat
    decreases ts.len(),
{
    if ts.len() == 0 {
        0
    } else if ts.last() is Label {
        count_insts(ts.drop_last())
    } else {
        count_insts(ts.drop_last()) + 1
    }
}

/// The table after the label pass has seen the first `n` tokens: each label not yet known
/// names the number of instructions before it.
pub open spec fn label_table(base: Seq<(Seq<char>, u16)>, ts: Seq<TokenView>, n: nat) -> Seq<(Seq<char>, u16)>
    decreases n,
{
    if n == 0 {
        base
    } else {
        let t = label_table(base, ts, (n - 1) as nat);
        match ts[n - 1] {
            TokenView::Label(name) => if lookup(t, name) is None {
                t.push((name, count_insts(ts.take(n - 1)) as u16))
            } else {
                t
            },
            _ => t,
        }
    }
}

/// The table after the variable pass has seen the first `n` tokens: each symbol not yet
/// known gets the next address from 16 on.
pub open spec fn var_table(base: Seq<(Seq<char>, u16)>, ts: Seq<TokenView>, n: nat) -> Seq<(Seq<char>, u16)>
    decreases n,
{
    let labels = label_table(base, ts, ts.len());
    if n == 0 {
        labels
    } else {
        let t = var_table(base, ts, (n - 1) as nat);
        match ts[n - 1] {
            TokenView::A(AddressView::Symbol(name)) => if lookup(t, name) is None {
                t.push((name, (VAR_START + (t.len() - labels.len())) as u16))
            } else {
                t
            },
            _ => t,
        }
    }
}

/// The table that both passes make from `base` over `ts`.
pub open spec fn resolve_from(base: Seq<(Seq<char>, u16)>, ts: Seq<TokenView>) -> Seq<(Seq<char>, u16)> {
    var_table(base, ts, ts.len())
}

/// Whether every symbol that an address instruction of `ts` names is in `t`.
pub open spec fn all_resolved(t: Seq<(Seq<char>, u16)>, ts: Seq<TokenView>) -> bool {
    forall|i: int| 0 <= i < ts.len() ==> match #[trigger] ts[i] {
        TokenView::A(AddressView::Symbol(name)) => lookup(t, name) is Some,
        _ => true,
    }
}

pub open spec fn dest_bits(x: CDest) -> u16 {
    match x {
        CDest::Null => 0b000,
        CDest::M => 0b001,
        CDest::D => 0b010,
        CDest::MD => 0b011,
        CDest::A => 0b100,
        CDest::AM => 0b101,
        CDest::AD => 0b110,
        CDest::AMD => 0b111,
    }
}

pub open spec fn jump_bits(x: CJump) -> u16 {
    match x {
        CJump::Null => 0b000,
        CJump::JGT => 0b001,
        CJump::JEQ => 0b010,
        CJump::JGE => 0b011,
        CJump::JLT => 0b100,
        CJump::JNE => 0b101,
        CJump::JLE => 0b110,
        CJump::JMP => 0b111,
    }
}

pub open spec fn comp_bits(x: CComp) -> u16 {
    match x {
        CComp::Zero => 0b0101010,
        CComp::One => 0b0111111,
        CComp::NegOne => 0b0111010,
        CComp::D => 0b0001100,
        CComp::A => 0b0110000,
        CComp::NotD => 0b0001101,
        CComp::NotA => 0b0110001,
        CComp::NegD => 0b0001111,
        CComp::NegA => 0b0110011,
        CComp::DPlusOne => 0b0011111,
        CComp::APlusOne => 0b0110111,
        CComp::DMinusOne => 0b0001110,
        CComp::AMinusOne => 0b0110010,
        CComp::DPlusA => 0b0000010,
        CComp::DMinusA => 0b0010011,
        CComp::AMinusD => 0b0000111,
        CComp::DAndA => 0b0000000,
        CComp::DOrA => 0b0010101,
        CComp::M => 0b1110000,
        CComp::NotM => 0b1110001,
        CComp::NegM => 0b1110011,
        CComp::MPlusOne => 0b1110111,
        CComp::MMinusOne => 0b1110010,
        CComp::DPlusM => 0b1000010,
        CComp::DMinusM => 0b1010011,
        CComp::MMinusD => 0b1000111,
        CComp::DAndM => 0b1000000,
        CComp::DOrM => 0b1010101,
    }
}

/// The word of a computation instruction: `111`, then the `a` bit and the six computation
/// bits, then three destination bits and three jump bits.
pub open spec fn encode_c(c: ComputationInst) -> u16 {
    0b1110000000000000u16 | (comp_bits(c.comp) << 6u16) | (dest_bits(c.dest) << 3u16) | jump_bits(c.jump)
}

/// The word of an address instruction: the address with its top bit cleared.
pub open spec fn encode_a(addr: u16) -> u16 {
    0b0111111111111111u16 & addr
}

/// The address an address operand stands for under `t`.
pub open spec fn address_of(t: Seq<(Seq<char>, u16)>, a: AddressView) -> Option<u16> {
    match a {
        AddressView::Value(v) => Some(v),
        AddressView::Symbol(s) => lookup(t, s),
    }
}

/// The words of `ts` under `t`: one per instruction, in order; labels give none.
pub open spec fn words_of(t: Seq<(Seq<char>, u16)>, ts: Seq<TokenView>) -> Seq<u16>
    decreases ts.len(),
{
    if ts.len() == 0 {
        seq![]
    } else {
        let w = words_of(t, ts.drop_last());
        match ts.last() {
            TokenView::A(a) => w.push(encode_a(address_of(t, a).unwrap())),
            TokenView::C(c) => w.push(encode_c(c)),
            TokenView::Label(_) => w,
        }
    }
}

fn dest_bits_exec(x: CDest) -> (r: u16)
    ensures
        r == dest_bits(x),
{
    match x {
        CDest::Null => 0b000,
        CDest::M => 0b001,
        CDest::D => 0b010,
        CDest::MD => 0b011,
        CDest::A => 0b100,
        CDest::AM => 0b101,
        CDest::AD => 0b110,
        CDest::AMD => 0b111,
    }
}

fn jump_bits_exec(x: CJump) -> (r: u16)
    ensures
        r == jump_bits(x),
{
    match x {
        CJump::Null => 0b000,
        CJump::JGT => 0b001,
        CJump::JEQ => 0b010,
        CJump::JGE => 0b011,
        CJump::JLT => 0b100,
        CJump::JNE => 0b101,
        CJump::JLE => 0b110,
        CJump::JMP => 0b111,
    }
}

fn comp_bits_exec(x: CComp) -> (r: u16)
    ensures
        r == comp_bits(x),
{
    match x {
        CComp::Zero => 0b0101010,
        CComp::One => 0b0111111,
        CComp::NegOne => 0b0111010,
        CComp::D => 0b0001100,
        CComp::A => 0b0110000,
        CComp::NotD => 0b0001101,
        CComp::NotA => 0b0110001,
        CComp::NegD => 0b0001111,
        CComp::NegA => 0b0110011,
        CComp::DPlusOne => 0b0011111,
        CComp::APlusOne => 0b0110111,
        CComp::DMinusOne => 0b0001110,
        CComp::AMinusOne => 0b0110010,
        CComp::DPlusA => 0b0000010,
        CComp::DMinusA => 0b0010011,
        CComp::AMinusD => 0b0000111,
        CComp::DAndA => 0b0000000,
        CComp::DOrA => 0b0010101,
        CComp::M => 0b1110000,
        CComp::NotM => 0b1110001,
        CComp::NegM => 0b1110011,
        CComp::MPlusOne => 0b1110111,
        CComp::MMinusOne => 0b1110010,
        CComp::DPlusM => 0b1000010,
        CComp::DMinusM => 0b1010011,
        CComp::MMinusD => 0b1000111,
        CComp::DAndM => 0b1000000,
        CComp::DOrM => 0b1010101,
    }
}

/// An assembler for one program: its tokens and its symbol table.
pub struct Assembler {
    symbols: Vec<(String, u16)>,
    tokens: Vec<Token>,
}

impl Assembler {
    /// The symbol table, names as characters.
    pub closed spec fn table(&self) -> Seq<(Seq<char>, u16)> {
        self.symbols@.map_values(|e: (String, u16)| (e.0@, e.1))
    }

    /// The program's tokens.
    pub closed spec fn program(&self) -> Seq<TokenView> {
        token_views(self.tokens@)
    }

    /// An assembler for `tokens` whose table holds the predefined symbols.
    pub fn new(tokens: Vec<Token>) -> (r: Self)
        ensures
            r.table() == predefined(),
            r.program() == token_views(tokens@),
    {
        let mut symbols: Vec<(String, u16)> = Vec::new();
        symbols.push((String::from_str("R0"), 0));
        symbols.push((String::from_str("R1"), 1));
        symbols.push((String::from_str("R2"), 2));
        symbols.push((String::from_str("R3"), 3));
        symbols.push((String::from_str("R4"), 4));
        symbols.push((String::from_str("R5"), 5));
        symbols.push((String::from_str("R6"), 6));
        symbols.push((String::from_str("R7"), 7));
        symbols.push((String::from_str("R8"), 8));
        symbols.push((String::from_str("R9"), 9));
        symbols.push((String::from_str("R10"), 10));
        symbols.push((String::from_str("R11"), 11));
        symbols.push((String::from_str("R12"), 12));
        symbols.push((String::from_str("R13"), 13));
        symbols.push((String::from_str("R14"), 14));
        symbols.push((String::from_str("R15"), 15));
        symbols.push((String::from_str("SCREEN"), 16384));
        symbols.push((String::from_str("KBD"), 24576));
        symbols.push((String::from_str("SP"), 0));
        symbols.push((String::from_str("LCL"), 1));
        symbols.push((String::from_str("ARG"), 2));
        symbols.push((String::from_str("THIS"), 3));
        symbols.push((String::from_str("THAT"), 4));
        let r = Assembler { symbols, tokens };
        assert(r.table() =~= predefined());
        r
    }

    /// The address `name` stands for.
    fn find_symbol(&self, name: &String) -> (r: Option<u16>)
        ensures
            r == lookup(self.table(), name@),
    {
        let ghost t = self.table();
        let mut i: usize = 0;
        while i < self.symbols.len()
            invariant
                i <= self.symbols@.len(),
                t == self.table(),
                lookup(t.take(i as int), name@) is None,
            decreases self.symbols@.len() - i,
        {
            assert(t.take(i + 1).drop_last() =~= t.take(i as int));
            if self.symbols[i].0 == *name {
                proof {
                    lemma_lookup_prefix(t, i + 1, name@);
                }
                return Some(self.symbols[i].1);
            }
            i = i + 1;
        }
        assert(t.take(i as int) =~= t);
        None
    }

    /// Appends the entry (`name`, `addr`).
    fn add_symbol(&mut self, name: &String, addr: u16)
        ensures
            final(self).table() == old(self).table().push((name@, addr)),
            final(self).program() == old(self).program(),
    {
        self.symbols.push((name.clone(), addr));
        assert(self.table() =~= old(self).table().push((name@, addr)));
    }

    /// Resolves the program's symbols in two passes. The label pass gives each label not yet
    /// known the number of instructions before it; the variable pass then gives each symbol
    /// still unknown the next address from 16 on, in order of first use.
    pub fn resolve_symbols(&mut self)
        requires
            old(self).program().len() + 16 <= 65535,
        ensures
            final(self).table() == resolve_from(old(self).table(), old(self).program()),
            final(self).program() == old(self).program(),
            all_resolved(final(self).table(), final(self).program()),
    {
        let ghost base = self.table();
        let ghost ts = self.program();
        let mut line_count: u16 = 0;
        let mut i: usize = 0;
        while i < self.tokens.len()
            invariant
                i <= self.tokens@.len(),
                ts == self.program(),
                ts.len() + 16 <= 65535,
                self.table() == label_table(base, ts, i as nat),
                line_count == count_insts(ts.take(i as int)),
                line_count <= i,
            decreases self.tokens@.len() - i,
        {
            assert(ts.take(i + 1).drop_last() =~= ts.take(i as int));
            assert(ts[i as int] == self.tokens@[i as int]@);
            match &self.tokens[i] {
                Token::Label(label) => {
                    if self.find_symbol(label).is_none() {
                        let name = label.clone();
                        self.add_symbol(&name, line_count);
                    }
                },
                _ => {
                    line_count = line_count + 1;
                },
            }
            i = i + 1;
        }
        assert(ts.take(i as int) =~= ts);
        let ghost labels = self.table();
        proof {
            lemma_label_table_len(base, ts, ts.len());
        }
        let mut var_count: u16 = VAR_START;
        let mut i: usize = 0;
        while i < self.tokens.len()
            invariant
                i <= self.tokens@.len(),
                ts == self.program(),
                ts.len() + 16 <= 65535,
                labels == label_table(base, ts, ts.len()),
                self.table() == var_table(base, ts, i as nat),
                self.table().len() >= labels.len(),
                var_count == VAR_START + (self.table().len() - labels.len()),
                self.table().len() - labels.len() <= i,
                all_resolved(self.table(), ts.take(i as int)),
            decreases self.tokens@.len() - i,
        {
            assert(ts[i as int] == self.tokens@[i as int]@);
            let ghost before = self.table();
            match &self.tokens[i] {
                Token::A(AddressInst::Symbol(addr)) => {
                    if self.find_symbol(addr).is_none() {
                        let name = addr.clone();
                        self.add_symbol(&name, var_count);
                        var_count = var_count + 1;
                    }
                },
                _ => {},
            }
            proof {
                lemma_push_keeps_lookups(before, self.table());
                assert forall|j: int| 0 <= j < i + 1 implies match #[trigger] ts.take(i + 1)[j] {
                    TokenView::A(AddressView::Symbol(name)) => lookup(self.table(), name) is Some,
                    _ => true,
                } by {
                    if j < i {
                        assert(ts.take(i + 1)[j] == ts.take(i as int)[j]);
                    }
                }
            }
            i = i + 1;
        }
        assert(ts.take(i as int) =~= ts);
    }

    /// The word of an address instruction.
    pub fn compile_a_instruction(&self, inst: &AddressInst) -> (r: u16)
        requires
            address_of(self.table(), inst@) is Some,
        ensures
            r == encode_a(address_of(self.table(), inst@).unwrap()),
    {
        let addr = match inst {
            AddressInst::Value(val) => *val,
            AddressInst::Symbol(symbol) => self.find_symbol(symbol).unwrap(),
        };
        0b0111111111111111 & addr
    }

    /// The word of a computation instruction.
    pub fn compile_c_instruction(&self, inst: &ComputationInst) -> (r: u16)
        ensures
            r == encode_c(*inst),
    {
        let dest = dest_bits_exec(inst.dest);
        let jump = jump_bits_exec(inst.jump);
        let comp = comp_bits_exec(inst.comp);
        0b1110000000000000 | (comp << 6u16) | (dest << 3u16) | jump
    }

    /// The program's words: one per instruction, in order; labels give none.
    pub fn assemble(&self) -> (r: Vec<u16>)
        requires
            all_resolved(self.table(), self.program()),
        ensures
            r@ == words_of(self.table(), self.program()),
    {
        let ghost t = self.table();
        let ghost ts = self.program();
        let mut insts: Vec<u16> = Vec::new();
        let mut i: usize = 0;
        while i < self.tokens.len()
            invariant
                i <= self.tokens@.len(),
                t == self.table(),
                ts == self.program(),
                all_resolved(t, ts),
                insts@ == words_of(t, ts.take(i as int)),
            decreases self.tokens@.len() - i,
        {
            assert(ts.take(i + 1).drop_last() =~= ts.take(i as int));
            assert(ts[i as int] == self.tokens@[i as int]@);
            match &self.tokens[i] {
                Token::A(a_inst) => {
                    let w = self.compile_a_instruction(a_inst);
                    insts.push(w);
                },
                Token::C(c_inst) => {
                    let w = self.compile_c_instruction(c_inst);
                    insts.push(w);
                },
                Token::Label(_) => {},
            }
            i = i + 1;
        }
        assert(ts.take(i as int) =~= ts);
        insts
    }
}

/// A name found in a prefix of a table stands for the same address in the whole table.
proof fn lemma_lookup_prefix(t: Seq<(Seq<char>, u16)>, k: int, name: Seq<char>)
    requires
        0 <= k <= t.len(),
        lookup(t.take(k), name) is Some,
    ensures
        lookup(t, name) == lookup(t.take(k), name),
    decreases t.len() - k,
{
    if k < t.len() {
        assert(t.take(k + 1).drop_last() =~= t.take(k));
        lemma_lookup_prefix(t, k + 1, name);
    } else {
        assert(t.take(k) =~= t);
    }
}

/// Appending an entry keeps every name that was found.
proof fn lemma_push_keeps_lookups(t: Seq<(Seq<char>, u16)>, u: Seq<(Seq<char>, u16)>)
    requires
        u == t || exists|e: (Seq<char>, u16)| u == t.push(e),
    ensures
        forall|name: Seq<char>| lookup(t, name) is Some ==> #[trigger] lookup(u, name) == lookup(t, name),
{
    if u != t {
        let e = choose|e: (Seq<char>, u16)| u == t.push(e);
        assert(u.drop_last() =~= t);
    }
}

/// The label pass only appends entries, at most one per token.
proof fn lemma_label_table_len(base: Seq<(Seq<char>, u16)>, ts: Seq<TokenView>, n: nat)
    requires
        n <= ts.len(),
    ensures
        base.len() <= label_table(base, ts, n).len() <= base.len() + n,
    decreases n,
{
    if n > 0 {
        lemma_label_table_len(base, ts, (n - 1) as nat);
    }
}

/// The symbols that the variable pass allocates: each name that an address instruction uses,
/// that `known` does not hold, in order of first use, once.
pub open spec fn fresh_symbols(known: Seq<(Seq<char>, u16)>, ts: Seq<TokenView>, n: nat) -> Seq<Seq<char>>
    decreases n,
{
    if n == 0 {
        seq![]
    } else {
        let f = fresh_symbols(known, ts, (n - 1) as nat);
        match ts[n - 1] {
            TokenView::A(AddressView::Symbol(s)) => if lookup(known, s) is None && !f.contains(s) {
                f.push(s)
            } else {
                f
            },
            _ => f,
        }
    }
}

/// The entries that give the names `f` the addresses 16, 17, ... in order.
pub open spec fn allocations(f: Seq<Seq<char>>) -> Seq<(Seq<char>, u16)> {
    Seq::new(f.len(), |k: int| (f[k], (VAR_START + k) as u16))
}

/// A name is missing from a table exactly when no entry has it.
proof fn lemma_lookup_none(t: Seq<(Seq<char>, u16)>, x: Seq<char>)
    ensures
        (lookup(t, x) is None) == (forall|j: int| 0 <= j < t.len() ==> (#[trigger] t[j]).0 != x),
    decreases t.len(),
{
    if t.len() > 0 {
        lemma_lookup_none(t.drop_last(), x);
        if lookup(t, x) is None {
            assert forall|j: int| 0 <= j < t.len() implies (#[trigger] t[j]).0 != x by {
                if j < t.len() - 1 {
                    assert(t[j] == t.drop_last()[j]);
                }
            }
        } else if lookup(t.drop_last(), x) is Some {
            let j = choose|j: int| 0 <= j < t.drop_last().len() && (#[trigger] t.drop_last()[j]).0 == x;
            assert(t[j] == t.drop_last()[j]);
        }
    }
}

/// A name stands for the address of its first entry.
proof fn lemma_lookup_first(t: Seq<(Seq<char>, u16)>, x: Seq<char>, k: int)
    requires
        0 <= k < t.len(),
        t[k].0 == x,
        forall|j: int| 0 <= j < k ==> (#[trigger] t[j]).0 != x,
    ensures
        lookup(t, x) == Some(t[k].1),
    decreases t.len(),
{
    if k < t.len() - 1 {
        assert forall|j: int| 0 <= j < k implies (#[trigger] t.drop_last()[j]).0 != x by {
            assert(t.drop_last()[j] == t[j]);
        }
        lemma_lookup_first(t.drop_last(), x, k);
    } else {
        assert forall|j: int| 0 <= j < t.drop_last().len() implies (#[trigger] t.drop_last()[j]).0 != x by {
            assert(t.drop_last()[j] == t[j]);
        }
        lemma_lookup_none(t.drop_last(), x);
    }
}

/// Once found, a name keeps its address through the rest of the label pass.
proof fn lemma_label_pass_keeps(base: Seq<(Seq<char>, u16)>, ts: Seq<TokenView>, n: nat, m: nat, x: Seq<char>)
    requires
        n <= m,
        lookup(label_table(base, ts, n), x) is Some,
    ensures
        lookup(label_table(base, ts, m), x) == lookup(label_table(base, ts, n), x),
    decreases m - n,
{
    if n < m {
        lemma_label_pass_keeps(base, ts, n, (m - 1) as nat, x);
        let t = label_table(base, ts, (m - 1) as nat);
        lemma_push_keeps_lookups(t, label_table(base, ts, m));
    }
}

/// Once found after the label pass, a name keeps its address through the variable pass.
proof fn lemma_var_pass_keeps(base: Seq<(Seq<char>, u16)>, ts: Seq<TokenView>, n: nat, x: Seq<char>)
    requires
        lookup(label_table(base, ts, ts.len()), x) is Some,
    ensures
        lookup(var_table(base, ts, n), x) == lookup(label_table(base, ts, ts.len()), x),
    decreases n,
{
    if n > 0 {
        lemma_var_pass_keeps(base, ts, (n - 1) as nat, x);
        let t = var_table(base, ts, (n - 1) as nat);
        lemma_push_keeps_lookups(t, var_table(base, ts, n));
    }
}

/// Before the first `(name)` of a label not known from the start, the label pass does not
/// know the name.
proof fn lemma_label_unknown_before(base: Seq<(Seq<char>, u16)>, ts: Seq<TokenView>, n: nat, name: Seq<char>)
    requires
        n <= ts.len(),
        lookup(base, name) is None,
        forall|j: int| 0 <= j < n ==> ts[j] != TokenView::Label(name),
    ensures
        lookup(label_table(base, ts, n), name) is None,
    decreases n,
{
    if n > 0 {
        lemma_label_unknown_before(base, ts, (n - 1) as nat, name);
        let t = label_table(base, ts, (n - 1) as nat);
        assert(ts[n - 1] != TokenView::Label(name));
        if label_table(base, ts, n) != t {
            assert(label_table(base, ts, n).drop_last() =~= t);
        }
    }
}

/// Encoding is a function of the table and the tokens alone: two encodings of one token
/// sequence under one table give the same words.
pub proof fn lemma_encoding_deterministic(
    t: Seq<(Seq<char>, u16)>,
    ts: Seq<TokenView>,
    w1: Seq<u16>,
    w2: Seq<u16>,
)
    requires
        w1 == words_of(t, ts),
        w2 == words_of(t, ts),
    ensures
        w1 == w2,
{
}

/// A label's address is the number of instructions before its first definition, wherever
/// it stands among other labels; this holds of every label whose name is not predefined.
pub proof fn lemma_label_address(ts: Seq<TokenView>, i: int, name: Seq<char>)
    requires
        0 <= i < ts.len(),
        ts[i] == TokenView::Label(name),
        forall|j: int| 0 <= j < i ==> ts[j] != TokenView::Label(name),
        lookup(predefined(), name) is None,
    ensures
        lookup(resolve_from(predefined(), ts), name) == Some(count_insts(ts.take(i)) as u16),
{
    let base = predefined();
    lemma_label_unknown_before(base, ts, i as nat, name);
    let t = label_table(base, ts, i as nat);
    assert(label_table(base, ts, (i + 1) as nat) == t.push((name, count_insts(ts.take(i)) as u16)));
    assert(t.push((name, count_insts(ts.take(i)) as u16)).drop_last() =~= t);
    lemma_label_pass_keeps(base, ts, (i + 1) as nat, ts.len(), name);
    lemma_var_pass_keeps(base, ts, ts.len(), name);
}

/// The variable pass appends to the label table exactly the allocations of the fresh symbols.
proof fn lemma_var_table_shape(base: Seq<(Seq<char>, u16)>, ts: Seq<TokenView>, n: nat)
    requires
        n <= ts.len(),
    ensures
        var_table(base, ts, n) == label_table(base, ts, ts.len()) + allocations(
            fresh_symbols(label_table(base, ts, ts.len()), ts, n),
        ),
        fresh_symbols(label_table(base, ts, ts.len()), ts, n).no_duplicates(),
        forall|k: int| 0 <= k < fresh_symbols(label_table(base, ts, ts.len()), ts, n).len()
            ==> lookup(label_table(base, ts, ts.len()), #[trigger] fresh_symbols(label_table(base, ts, ts.len()), ts, n)[k]) is None,
    decreases n,
{
    let known = label_table(base, ts, ts.len());
    if n == 0 {
        assert(known + allocations(seq![]) =~= known);
    } else {
        lemma_var_table_shape(base, ts, (n - 1) as nat);
        let f = fresh_symbols(known, ts, (n - 1) as nat);
        let t = var_table(base, ts, (n - 1) as nat);
        match ts[n - 1] {
            TokenView::A(AddressView::Symbol(s)) => {
                lemma_lookup_none(t, s);
                lemma_lookup_none(known, s);
                if lookup(known, s) is None && !f.contains(s) {
                    assert forall|j: int| 0 <= j < t.len() implies (#[trigger] t[j]).0 != s by {
                        if j >= known.len() {
                            assert(t[j].0 == f[j - known.len()]);
                        } else {
                            assert(t[j] == known[j]);
                        }
                    }
                    assert(t.push((s, (VAR_START + (t.len() - known.len())) as u16)) =~= known
                        + allocations(f.push(s)));
                } else if lookup(known, s) is Some {
                    let j = choose|j: int| 0 <= j < known.len() && (#[trigger] known[j]).0 == s;
                    assert(t[j] == known[j]);
                } else {
                    let k = choose|k: int| 0 <= k < f.len() && f[k] == s;
                    assert(t[known.len() + k].0 == s);
                }
            },
            _ => {},
        }
    }
}

/// The n-th distinct symbol that neither a label nor a predefined name defines gets address
/// 16 + n - 1 (counting from 1), in order of first use.
pub proof fn lemma_variable_addresses(ts: Seq<TokenView>, k: int)
    requires
        0 <= k < fresh_symbols(label_table(predefined(), ts, ts.len()), ts, ts.len()).len(),
    ensures
        lookup(resolve_from(predefined(), ts), fresh_symbols(label_table(predefined(), ts, ts.len()), ts, ts.len())[k])
            == Some((VAR_START + k) as u16),
{
    let base = predefined();
    let known = label_table(base, ts, ts.len());
    let f = fresh_symbols(known, ts, ts.len());
    lemma_var_table_shape(base, ts, ts.len());
    let t = resolve_from(base, ts);
    let x = f[k];
    lemma_lookup_none(known, x);
    assert(t[known.len() + k] == (x, (VAR_START + k) as u16));
    assert forall|j: int| 0 <= j < known.len() + k implies (#[trigger] t[j]).0 != x by {
        if j >= known.len() {
            assert(t[j].0 == f[j - known.len()]);
        } else {
            assert(t[j] == known[j]);
        }
    }
    lemma_lookup_first(t, x, known.len() + k);
}

/// `SCREEN` always stands for 16384, and `SP` for 0, as `R0` does: a program cannot
/// redefine a predefined name.
pub proof fn lemma_predefined_precedence(ts: Seq<TokenView>)
    ensures
        lookup(resolve_from(predefined(), ts), "SCREEN"@) == Some(16384u16),
        lookup(resolve_from(predefined(), ts), "SP"@) == Some(0u16),
        lookup(resolve_from(predefined(), ts), "R0"@) == Some(0u16),
{
    let base = predefined();
    reveal_strlit("SCREEN");
    reveal_strlit("SP");
    reveal_strlit("R0");
    reveal_strlit("R1");
    reveal_strlit("R2");
    reveal_strlit("R3");
    reveal_strlit("R4");
    reveal_strlit("R5");
    reveal_strlit("R6");
    reveal_strlit("R7");
    reveal_strlit("R8");
    reveal_strlit("R9");
    reveal_strlit("R10");
    reveal_strlit("R11");
    reveal_strlit("R12");
    reveal_strlit("R13");
    reveal_strlit("R14");
    reveal_strlit("R15");
    reveal_strlit("KBD");
    assert forall|j: int| 0 <= j < 16 implies (#[trigger] base[j]).0 != "SCREEN"@ by {
        assert(base[j].0.len() != 6);
    }
    lemma_lookup_first(base, "SCREEN"@, 16);
    assert forall|j: int| 0 <= j < 18 implies (#[trigger] base[j]).0 != "SP"@ by {
        assert(base[j].0.len() != 2 || base[j].0[0] != 'S');
    }
    lemma_lookup_first(base, "SP"@, 18);
    lemma_lookup_first(base, "R0"@, 0);
    lemma_label_pass_keeps(base, ts, 0, ts.len(), "SCREEN"@);
    lemma_label_pass_keeps(base, ts, 0, ts.len(), "SP"@);
    lemma_label_pass_keeps(base, ts, 0, ts.len(), "R0"@);
    lemma_var_pass_keeps(base, ts, ts.len(), "SCREEN"@);
    lemma_var_pass_keeps(base, ts, ts.len(), "SP"@);
    lemma_var_pass_keeps(base, ts, ts.len(), "R0"@);
}

} // verus!
