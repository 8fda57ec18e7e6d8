use vstd::prelude::*;
use vstd::string::StrSliceExecFns;
use crate::value::{BinaryOpcode, Predicate, UnaryOpcode};

verus! {

/// A basic block: `block` indexes the blocks of function `func`.
#[derive(Debug, Clone, Copy, PartialEq, Eq, Structural)]
pub struct BlockRef {
    pub func: usize,
    pub block: usize,
}

/// An instruction: position `index` in block `block` of function `func`.
#[derive(Debug, Clone, Copy, PartialEq, Eq, Structural)]
pub struct InstrRef {
    pub func: usize,
    pub block: usize,
    pub index: usize,
}

/// An operand of an instruction.
#[derive(Debug, Clone, Copy, PartialEq, Eq, Structural)]
pub enum Operand {
    /// An integer constant.
    Int(i64),
    /// The null pointer.
    Null,
    /// A global variable, by its index.
    Global(usize),
    /// A parameter of the enclosing function.
    Argument(usize),
    /// The result of instruction `index` of block `block` of the enclosing function.
    Instr { block: usize, index: usize },
    /// An operand that the engine does not model.
    Other,
}

/// The instructions that the engine distinguishes.
#[allow(inconsistent_fields)]
pub enum Instr {
    Return { op: Option<Operand> },
    CondBr { cond: Operand, then_block: usize, else_block: usize },
    Br { target: usize },
    Switch { cond: Operand, cases: Vec<usize>, default: usize },
    /// `callee` is the called function's index, `None` for a call through a pointer.
    Call { callee: Option<usize>, args: Vec<Operand> },
    Alloca,
    Store { loc: Operand, val: Operand },
    Load { loc: Operand },
    ICmp { pred: Predicate, op0: Operand, op1: Operand },
    /// Incoming values, each with the block it comes from.
    Phi { incomings: Vec<(usize, Operand)> },
    GetElementPtr { loc: Operand, indices: Vec<Operand> },
    Binary { op: BinaryOpcode, op0: Operand, op1: Operand },
    Unary { op: UnaryOpcode, op0: Operand },
    Unreachable,
    /// Any other opcode: executing it changes nothing.
    Other,
}

pub struct Block {
    pub instrs: Vec<Instr>,
    /// Whether the IR provider marked this block as a loop header.
    pub is_loop_header: bool,
}

pub struct Function {
    pub name: String,
    pub num_params: usize,
    /// Empty for a function that is only declared.
    pub blocks: Vec<Block>,
}

/// A module: its functions, indexed from zero.
pub struct Program {
    pub functions: Vec<Function>,
}

impl Instr {
    /// Instructions that end a block.
    pub open spec fn is_terminator(&self) -> bool {
        match self {
            Instr::Return { .. } | Instr::CondBr { .. } | Instr::Br { .. } | Instr::Switch { .. }
            | Instr::Unreachable => true,
            _ => false,
        }
    }

    /// Every block and callee that the instruction names exists.
    pub open spec fn targets_ok(&self, n_blocks: nat, n_funcs: nat) -> bool {
        match self {
            Instr::CondBr { then_block, else_block, .. } => then_block < n_blocks && else_block
                < n_blocks,
            Instr::Br { target } => target < n_blocks,
            Instr::Switch { cases, default, .. } => default < n_blocks && forall|k: int|
                0 <= k < cases@.len() ==> #[trigger] cases@[k] < n_blocks,
            Instr::Call { callee, .. } => callee.is_some() ==> callee.unwrap() < n_funcs,
            _ => true,
        }
    }
}

impl Block {
    pub open spec fn wf(&self, n_blocks: nat, n_funcs: nat) -> bool {
        &&& self.instrs@.len() > 0
        &&& self.instrs@.last().is_terminator()
        &&& forall|i: int|
            0 <= i < self.instrs@.len() ==> (#[trigger] self.instrs@[i]).targets_ok(
                n_blocks,
                n_funcs,
            )
    }
}

impl Function {
    pub open spec fn wf(&self, n_funcs: nat) -> bool {
        forall|b: int|
            0 <= b < self.blocks@.len() ==> (#[trigger] self.blocks@[b]).wf(
                self.blocks@.len(),
                n_funcs,
            )
    }

    /// A function with no body is only declared.
    pub open spec fn has_body(&self) -> bool {
        self.blocks@.len() > 0
    }
}

/// The instruction can transfer control to block `b`.
pub open spec fn branches_to(instr: Instr, b: usize) -> bool {
    match instr {
        Instr::CondBr { then_block, else_block, .. } => then_block == b || else_block == b,
        Instr::Br { target } => target == b,
        Instr::Switch { cases, default, .. } => default == b || cases@.contains(b),
        _ => false,
    }
}

/// A phi names an incoming value for block `a`; other instructions pass.
pub open spec fn phi_covers(instr: Instr, a: usize) -> bool {
    match instr {
        Instr::Phi { incomings } => exists|k: int| 0 <= k < incomings@.len() && incomings@[k].0 == a,
        _ => true,
    }
}

impl Function {
    /// Some instruction of block `a` can go to block `b`.
    pub open spec fn is_edge(&self, a: int, b: int) -> bool {
        exists|j: int| 0 <= j < self.blocks@[a].instrs@.len() && #[trigger] branches_to(self.blocks@[a].instrs@[j], b as usize)
    }

    /// Phis are where a predecessor is known: never in the entry block, only
    /// at the start of a block, and each names every block that can go to
    /// its own.
    pub open spec fn phis_wf(&self) -> bool {
        let nb = self.blocks@.len();
        &&& nb > 0 ==> forall|i: int| 0 <= i < self.blocks@[0].instrs@.len() ==> !(#[trigger] self.blocks@[0].instrs@[i] is Phi)
        &&& forall|b: int, i: int|
            0 <= b < nb && 0 < i < self.blocks@[b].instrs@.len() && (#[trigger] self.blocks@[b].instrs@[i] is Phi)
                ==> self.blocks@[b].instrs@[i - 1] is Phi
        &&& forall|b: int, i: int, a: int|
            0 <= b < nb && 0 <= i < self.blocks@[b].instrs@.len() && 0 <= a < nb && #[trigger] self.is_edge(a, b)
                ==> phi_covers(#[trigger] self.blocks@[b].instrs@[i], a as usize)
    }
}

impl Program {
    /// Every block ends in a terminator, every named block and callee
    /// exists, and phis are well placed.
    pub open spec fn wf(&self) -> bool {
        forall|f: int|
            0 <= f < self.functions@.len() ==> (#[trigger] self.functions@[f]).wf(
                self.functions@.len() as nat,
            ) && self.functions@[f].phis_wf()
    }

    pub open spec fn valid_block(&self, b: BlockRef) -> bool {
        &&& b.func < self.functions@.len()
        &&& b.block < self.functions@[b.func as int].blocks@.len()
    }

    pub open spec fn valid_instr(&self, i: InstrRef) -> bool {
        &&& self.valid_block(BlockRef { func: i.func, block: i.block })
        &&& i.index < self.block_at(BlockRef { func: i.func, block: i.block }).instrs@.len()
    }

    pub open spec fn block_at(&self, b: BlockRef) -> Block {
        self.functions@[b.func as int].blocks@[b.block as int]
    }

    pub open spec fn instr_at(&self, i: InstrRef) -> Instr {
        self.block_at(BlockRef { func: i.func, block: i.block }).instrs@[i.index as int]
    }
}

/// Names of compiler intrinsics begin with `llvm.`.
pub open spec fn is_intrinsic_name(name: Seq<char>) -> bool {
    name.len() >= 5 && name.subrange(0, 5) == seq!['l', 'l', 'v', 'm', '.']
}

impl Function {
    /// Whether this is a compiler intrinsic, which the engine skips.
    pub fn is_intrinsic(&self) -> (r: bool)
        ensures
            r == is_intrinsic_name(self.name@),
    {
        let s = self.name.as_str();
        if s.unicode_len() < 5 {
            return false;
        }
        let r = s.get_char(0) == 'l' && s.get_char(1) == 'l' && s.get_char(2) == 'v' && s.get_char(3) == 'm'
            && s.get_char(4) == '.';
        proof {
            if r {
                assert(self.name@.subrange(0, 5) =~= seq!['l', 'l', 'v', 'm', '.']);
            } else if self.name@.subrange(0, 5) == seq!['l', 'l', 'v', 'm', '.'] {
                assert(self.name@.subrange(0, 5)[0] == self.name@[0]);
                assert(self.name@.subrange(0, 5)[1] == self.name@[1]);
                assert(self.name@.subrange(0, 5)[2] == self.name@[2]);
                assert(self.name@.subrange(0, 5)[3] == self.name@[3]);
                assert(self.name@.subrange(0, 5)[4] == self.name@[4]);
            }
        }
        r
    }
}

/// Every element is below `n`.
pub fn all_below(v: &Vec<usize>, n: usize) -> (r: bool)
    ensures
        r == forall|k: int| 0 <= k < v@.len() ==> #[trigger] v@[k] < n,
{
    let mut i: usize = 0;
    while i < v.len()
        invariant
            i <= v@.len(),
            forall|k: int| 0 <= k < i ==> #[trigger] v@[k] < n,
        decreases v@.len() - i,
    {
        if v[i] >= n {
            assert(!(v@[i as int] < n));
            return false;
        }
        i = i + 1;
    }
    true
}

impl Instr {
    pub fn check_terminator(&self) -> (r: bool)
        ensures
            r == self.is_terminator(),
    {
        match self {
            Instr::Return { .. } | Instr::CondBr { .. } | Instr::Br { .. } | Instr::Switch { .. }
            | Instr::Unreachable => true,
            _ => false,
        }
    }

    pub fn check_targets(&self, n_blocks: usize, n_funcs: usize) -> (r: bool)
        ensures
            r == self.targets_ok(n_blocks as nat, n_funcs as nat),
    {
        match self {
            Instr::CondBr { then_block, else_block, .. } => *then_block < n_blocks && *else_block < n_blocks,
            Instr::Br { target } => *target < n_blocks,
            Instr::Switch { cases, default, .. } => *default < n_blocks && all_below(cases, n_blocks),
            Instr::Call { callee, .. } => match callee {
                Some(c) => *c < n_funcs,
                None => true,
            },
            _ => true,
        }
    }
}

/// Whether the block has no phi.
pub fn no_phi(block: &Block) -> (r: bool)
    ensures
        r == forall|i: int| 0 <= i < block.instrs@.len() ==> !(#[trigger] block.instrs@[i] is Phi),
{
    let mut i: usize = 0;
    while i < block.instrs.len()
        invariant
            i <= block.instrs@.len(),
            forall|k: int| 0 <= k < i ==> !(#[trigger] block.instrs@[k] is Phi),
        decreases block.instrs@.len() - i,
    {
        if let Instr::Phi { .. } = &block.instrs[i] {
            assert(block.instrs@[i as int] is Phi);
            return false;
        }
        i = i + 1;
    }
    true
}

/// Whether `v` holds `x`.
pub fn vec_contains(v: &Vec<usize>, x: usize) -> (r: bool)
    ensures
        r == v@.contains(x),
{
    let mut k: usize = 0;
    while k < v.len()
        invariant
            k <= v@.len(),
            forall|m: int| 0 <= m < k ==> v@[m] != x,
        decreases v@.len() - k,
    {
        if v[k] == x {
            assert(v@[k as int] == x);
            return true;
        }
        k = k + 1;
    }
    false
}

/// Whether some incoming edge comes from block `a`.
pub fn has_incoming(incomings: &Vec<(usize, Operand)>, a: usize) -> (r: bool)
    ensures
        r == exists|k: int| 0 <= k < incomings@.len() && incomings@[k].0 == a,
{
    let mut k: usize = 0;
    while k < incomings.len()
        invariant
            k <= incomings@.len(),
            forall|m: int| 0 <= m < k ==> incomings@[m].0 != a,
        decreases incomings@.len() - k,
    {
        if incomings[k].0 == a {
            return true;
        }
        k = k + 1;
    }
    false
}

pub fn check_branches_to(instr: &Instr, b: usize) -> (r: bool)
    ensures
        r == branches_to(*instr, b),
{
    match instr {
        Instr::CondBr { then_block, else_block, .. } => *then_block == b || *else_block == b,
        Instr::Br { target } => *target == b,
        Instr::Switch { cases, default, .. } => *default == b || vec_contains(cases, b),
        _ => false,
    }
}

pub fn check_phi_covers(instr: &Instr, a: usize) -> (r: bool)
    ensures
        r == phi_covers(*instr, a),
{
    match instr {
        Instr::Phi { incomings } => has_incoming(incomings, a),
        _ => true,
    }
}

impl Function {
    /// Decides `phis_wf`.
    #[verifier::rlimit(50)]
    pub fn check_phis(&self) -> (r: bool)
        ensures
            r == self.phis_wf(),
    {
        let nb = self.blocks.len();
        let mut b: usize = 0;
        while b < nb
            invariant
                nb == self.blocks@.len(),
                b <= nb,
                forall|c: int, i: int|
                    0 <= c < b && 0 < i < self.blocks@[c].instrs@.len() && (#[trigger] self.blocks@[c].instrs@[i] is Phi)
                        ==> self.blocks@[c].instrs@[i - 1] is Phi,
                forall|c: int, i: int, a: int|
                    0 <= c < b && 0 <= i < self.blocks@[c].instrs@.len() && 0 <= a < nb && #[trigger] self.is_edge(a, c)
                        ==> phi_covers(#[trigger] self.blocks@[c].instrs@[i], a as usize),
            decreases nb - b,
        {
            let blk = &self.blocks[b];
            let n = blk.instrs.len();
            let mut i: usize = 0;
            while i < n
                invariant
                    nb == self.blocks@.len(),
                    b < nb,
                    *blk == self.blocks@[b as int],
                    n == blk.instrs@.len(),
                    i <= n,
                    forall|k: int| 0 < k < i && (#[trigger] blk.instrs@[k] is Phi) ==> blk.instrs@[k - 1] is Phi,
                    forall|k: int, a: int|
                        0 <= k < i && 0 <= a < nb && #[trigger] self.is_edge(a, b as int)
                            ==> phi_covers(#[trigger] blk.instrs@[k], a as usize),
                decreases n - i,
            {
                let is_phi = if let Instr::Phi { .. } = &blk.instrs[i] { true } else { false };
                if is_phi && i > 0 {
                    if let Instr::Phi { .. } = &blk.instrs[i - 1] {
                    } else {
                        assert(self.blocks@[b as int].instrs@[i as int] is Phi);
                        return false;
                    }
                }
                let mut a: usize = 0;
                while a < nb
                    invariant
                        nb == self.blocks@.len(),
                        b < nb,
                        *blk == self.blocks@[b as int],
                        n == blk.instrs@.len(),
                        i < n,
                        a <= nb,
                        forall|c: int| 0 <= c < a && #[trigger] self.is_edge(c, b as int) ==> phi_covers(blk.instrs@[i as int], c as usize),
                    decreases nb - a,
                {
                    if !check_phi_covers(&blk.instrs[i], a) {
                        let src = &self.blocks[a];
                        let mut j: usize = 0;
                        while j < src.instrs.len()
                            invariant
                                nb == self.blocks@.len(),
                                a < nb,
                                b < nb,
                                i < n,
                                *blk == self.blocks@[b as int],
                                n == blk.instrs@.len(),
                                !phi_covers(blk.instrs@[i as int], a),
                                *src == self.blocks@[a as int],
                                j <= src.instrs@.len(),
                                forall|m: int| 0 <= m < j ==> !branches_to(#[trigger] src.instrs@[m], b),
                            decreases src.instrs@.len() - j,
                        {
                            if check_branches_to(&src.instrs[j], b) {
                                assert(self.is_edge(a as int, b as int)) by {
                                    assert(branches_to(self.blocks@[a as int].instrs@[j as int], (b as int) as usize));
                                }
                                assert(phi_covers(self.blocks@[b as int].instrs@[i as int], (a as int) as usize) == false);
                                return false;
                            }
                            j = j + 1;
                        }
                        assert(!self.is_edge(a as int, b as int));
                    }
                    a = a + 1;
                }
                i = i + 1;
            }
            b = b + 1;
        }
        if nb > 0 && !no_phi(&self.blocks[0]) {
            return false;
        }
        true
    }
}

impl Program {
    /// Decides `wf`: every block ends in a terminator, and every named block
    /// and callee exists.
    pub fn check_wf(&self) -> (r: bool)
        ensures
            r == self.wf(),
    {
        let n_funcs = self.functions.len();
        let mut f: usize = 0;
        while f < n_funcs
            invariant
                n_funcs == self.functions@.len(),
                f <= n_funcs,
                forall|g: int| 0 <= g < f ==> (#[trigger] self.functions@[g]).wf(n_funcs as nat) && self.functions@[g].phis_wf(),
            decreases n_funcs - f,
        {
            let func = &self.functions[f];
            let n_blocks = func.blocks.len();
            let mut b: usize = 0;
            while b < n_blocks
                invariant
                    n_funcs == self.functions@.len(),
                    f < n_funcs,
                    *func == self.functions@[f as int],
                    n_blocks == func.blocks@.len(),
                    b <= n_blocks,
                    forall|c: int| 0 <= c < b ==> (#[trigger] func.blocks@[c]).wf(n_blocks as nat, n_funcs as nat),
                decreases n_blocks - b,
            {
                let block = &func.blocks[b];
                let n = block.instrs.len();
                if n == 0 || !block.instrs[n - 1].check_terminator() {
                    assert(!func.blocks@[b as int].wf(n_blocks as nat, n_funcs as nat));
                    assert(!self.functions@[f as int].wf(n_funcs as nat));
                    return false;
                }
                let mut i: usize = 0;
                while i < n
                    invariant
                        n_funcs == self.functions@.len(),
                        f < n_funcs,
                        *func == self.functions@[f as int],
                        n_blocks == func.blocks@.len(),
                        b < n_blocks,
                        *block == func.blocks@[b as int],
                        n == block.instrs@.len(),
                        n > 0,
                        block.instrs@.last().is_terminator(),
                        i <= n,
                        forall|k: int| 0 <= k < i ==> (#[trigger] block.instrs@[k]).targets_ok(n_blocks as nat, n_funcs as nat),
                    decreases n - i,
                {
                    if !block.instrs[i].check_targets(n_blocks, n_funcs) {
                        assert(!func.blocks@[b as int].wf(n_blocks as nat, n_funcs as nat));
                        assert(!self.functions@[f as int].wf(n_funcs as nat));
                        return false;
                    }
                    i = i + 1;
                }
                b = b + 1;
            }
            if !func.check_phis() {
                return false;
            }
            f = f + 1;
        }
        true
    }
}

} // verus!
