//! Code generator: walks the statement trees and emits the assembly lines,
//! tracking variable stack slots and lexical scopes.
//!
//! Every variable occupies one machine-word slot whose index is its
//! declaration ordinal among the currently-live bindings; a slot's runtime
//! address is recomputed on every reference as `rsp + 8*slot`.  Entering a
//! block saves the number of live bindings and leaving it pops the bindings
//! declared inside; the stack pointer itself is never adjusted, only the
//! compile-time binding table shrinks.  Expressions are evaluated into a
//! destination register with a spill of the left operand to `rcx` whenever
//! either operand is itself compound, so that evaluating the right operand
//! cannot clobber the left value.
use vstd::prelude::*;
use crate::tokenize::TokenV;
use crate::tokenize::Token;
use crate::parser::Tree;
use crate::parser::TreeV;
use crate::parser::tree_view;
use crate::parser::seq_tree_view;
use crate::parser::lemma_seq_tree_view_len;
use crate::emit::AsmLine;
use crate::emit::Reg;
use crate::emit::CmpKind;
use crate::emit::render_program;
use crate::emit::render_program_exec;

verus! {

/// A live variable binding: its name and its stack-slot index.
pub struct Var {
    name: String,
    stack_loc: usize,
}

/// The mathematical value of a binding.
pub struct VarV {
    pub name: Seq<char>,
    pub stack_loc: int,
}

impl View for Var {
    type V = VarV;

    closed spec fn view(&self) -> VarV {
        VarV { name: self.name@, stack_loc: self.stack_loc as int }
    }
}

impl Var {
    pub fn new(name: String, stack_loc: usize) -> (v: Var)
        ensures
            v@ == (VarV { name: name@, stack_loc: stack_loc as int }),
    {
        Var { name, stack_loc }
    }
}

/// View of a binding table, element by element.
pub open spec fn vars_view(vs: Seq<Var>) -> Seq<VarV> {
    Seq::new(vs.len(), |i: int| vs[i]@)
}

/// Why generation failed.  The first failure aborts generation.
#[derive(Clone, Copy, PartialEq, Eq, Structural, Debug)]
pub enum GenError {
    /// A reference to a name with no live binding.
    UndeclaredVariable,
    /// A declaration of a name that is already live.
    AlreadyDeclared,
    /// A `BinOp` or `CmpOp` carrying a token that is not one of its
    /// operators (defensive; unreachable from parsed trees except for the
    /// `..` token, which has no lowering).
    InvalidOperator,
    /// A statement form where an expression was required.
    UnexpectedExpr,
    /// An arithmetic node was required.
    ExpectedBinOp,
    /// A comparison node was required: every `if`/`while` condition must be
    /// a comparison.
    ExpectedCmpOp,
    /// A non-`elsif` tree in an `elsif` chain (defensive).
    ExpectedElsIf,
    /// A `syscall` with no arguments or with more arguments than the
    /// target has argument registers.
    SysCallArity,
}

/// The first live binding with the given name, if any.
pub open spec fn spec_find_var(vars: Seq<VarV>, name: Seq<char>) -> Option<VarV>
    decreases vars.len(),
{
    if vars.len() == 0 {
        None
    } else if vars[0].name == name {
        Some(vars[0])
    } else {
        spec_find_var(vars.drop_first(), name)
    }
}

/// Whether a name has a live binding.
pub open spec fn is_declared(vars: Seq<VarV>, name: Seq<char>) -> bool {
    spec_find_var(vars, name) is Some
}

/// A compound expression: one whose evaluation uses the accumulator and
/// secondary registers, so a live value must be spilled around it.
pub open spec fn is_compound(t: TreeV) -> bool {
    t is BinOp || t is CmpOp
}

/// The arithmetic operations.
#[derive(Clone, Copy, PartialEq, Eq, Structural, Debug)]
pub enum BinKind {
    Add,
    Sub,
    Imul,
    Div,
}

/// The arithmetic operation of an operator token, if it is one.
pub open spec fn bin_kind(op: TokenV) -> Option<BinKind> {
    match op {
        TokenV::Plus => Some(BinKind::Add),
        TokenV::Minus => Some(BinKind::Sub),
        TokenV::Multiply => Some(BinKind::Imul),
        TokenV::Divide => Some(BinKind::Div),
        _ => None,
    }
}

/// The comparison condition of an operator token, if it is one.
pub open spec fn cmp_kind(op: TokenV) -> Option<CmpKind> {
    match op {
        TokenV::EquEqu => Some(CmpKind::Eq),
        TokenV::NotEqu => Some(CmpKind::Ne),
        TokenV::Greater => Some(CmpKind::Gt),
        TokenV::GreatEqu => Some(CmpKind::Ge),
        TokenV::Less => Some(CmpKind::Lt),
        TokenV::LessEqu => Some(CmpKind::Le),
        _ => None,
    }
}

/// The two-register arithmetic instruction for an operation.
pub open spec fn bin_line(k: BinKind, a: Reg, b: Reg) -> AsmLine {
    match k {
        BinKind::Add => AsmLine::Add(a, b),
        BinKind::Sub => AsmLine::Sub(a, b),
        BinKind::Imul => AsmLine::Imul(a, b),
        BinKind::Div => AsmLine::Div(b),
    }
}

/// The fixed syscall argument registers of the target ABI, in positional
/// order.
pub open spec fn syscall_reg(i: int) -> Reg {
    if i == 0 {
        Reg::Rdi
    } else if i == 1 {
        Reg::Rsi
    } else if i == 2 {
        Reg::Rdx
    } else if i == 3 {
        Reg::R10
    } else if i == 4 {
        Reg::R8
    } else {
        Reg::R9
    }
}

/// The lines that evaluate an expression into a destination register.
/// Comparisons ignore the destination: their boolean result is always left
/// in the accumulator.
pub open spec fn spec_gen_expr(t: TreeV, reg: Reg, vars: Seq<VarV>) -> Result<
    Seq<AsmLine>,
    GenError,
>
    decreases t, 2int,
{
    match t {
        TreeV::Number(n) => Ok(seq![AsmLine::MovImm(reg, n)]),
        TreeV::Ident(name) => match spec_find_var(vars, name) {
            Some(v) => Ok(seq![AsmLine::LoadVar(reg, v.stack_loc as usize)]),
            None => Err(GenError::UndeclaredVariable),
        },
        TreeV::BinOp(_l, _op, _r) => spec_gen_bin_exp(t, reg, vars),
        TreeV::CmpOp(_l, _op, _r) => spec_gen_cmp_exp(t, vars),
        TreeV::Empty => Ok(Seq::empty()),
        _ => Err(GenError::UnexpectedExpr),
    }
}

/// Dispatch an arithmetic node on its operator token.
pub open spec fn spec_gen_bin_exp(t: TreeV, reg: Reg, vars: Seq<VarV>) -> Result<
    Seq<AsmLine>,
    GenError,
>
    decreases t, 1int,
{
    match t {
        TreeV::BinOp(_l, op, _r) => match bin_kind(op) {
            Some(k) => spec_gen_bin_op(t, k, reg, vars),
            None => Err(GenError::InvalidOperator),
        },
        _ => Err(GenError::ExpectedBinOp),
    }
}

/// The lines of one arithmetic operation: evaluate the left operand into
/// the accumulator, spill it to `rcx` if either operand is compound,
/// evaluate the right operand, apply the operation, and move the result to
/// the destination register if it is not already there.  Division moves
/// its operands into the fixed dividend/divisor registers and clears the
/// high part of the dividend first.
pub open spec fn spec_gen_bin_op(t: TreeV, k: BinKind, reg: Reg, vars: Seq<VarV>) -> Result<
    Seq<AsmLine>,
    GenError,
>
    decreases t, 0int,
{
    match t {
        TreeV::BinOp(l, _op, r) => match spec_gen_expr(*l, Reg::Rax, vars) {
            Ok(ll) => {
                let cl = is_compound(*l);
                let cr = is_compound(*r);
                let spill = cl || cr;
                let lreg = if spill {
                    Reg::Rcx
                } else {
                    Reg::Rax
                };
                let rreg = if cl && cr {
                    Reg::Rax
                } else {
                    Reg::Rbx
                };
                let mid: Seq<AsmLine> = if spill {
                    seq![AsmLine::MovReg(Reg::Rcx, Reg::Rax)]
                } else {
                    Seq::empty()
                };
                match spec_gen_expr(*r, Reg::Rbx, vars) {
                    Ok(rl) => {
                        let op_lines: Seq<AsmLine> = if k is Div {
                            (if lreg != Reg::Rax {
                                seq![AsmLine::MovReg(Reg::Rax, lreg)]
                            } else {
                                Seq::empty()
                            }) + (if rreg != Reg::Rbx {
                                seq![AsmLine::MovReg(Reg::Rbx, rreg)]
                            } else {
                                Seq::empty()
                            }) + seq![AsmLine::Xor(Reg::Rdx, Reg::Rdx), AsmLine::Div(Reg::Rbx)]
                        } else {
                            seq![bin_line(k, lreg, rreg)]
                        };
                        let fin_lreg = if k is Div {
                            Reg::Rax
                        } else {
                            lreg
                        };
                        let tail: Seq<AsmLine> = if fin_lreg != reg {
                            seq![AsmLine::MovReg(reg, fin_lreg)]
                        } else {
                            Seq::empty()
                        };
                        Ok(ll + mid + rl + op_lines + tail)
                    },
                    Err(e) => Err(e),
                }
            },
            Err(e) => Err(e),
        },
        _ => Err(GenError::ExpectedBinOp),
    }
}

/// Dispatch a comparison node on its operator token.
pub open spec fn spec_gen_cmp_exp(t: TreeV, vars: Seq<VarV>) -> Result<Seq<AsmLine>, GenError>
    decreases t, 1int,
{
    match t {
        TreeV::CmpOp(_l, op, _r) => match cmp_kind(op) {
            Some(k) => spec_gen_cmp_op(t, k, vars),
            None => Err(GenError::InvalidOperator),
        },
        _ => Err(GenError::ExpectedCmpOp),
    }
}

/// The lines of one comparison: evaluate both operands (spilling the left
/// value around a compound right operand), compare, set the condition into
/// the low accumulator byte, and zero-extend it: comparisons produce a
/// first-class 0/1 value.
pub open spec fn spec_gen_cmp_op(t: TreeV, k: CmpKind, vars: Seq<VarV>) -> Result<
    Seq<AsmLine>,
    GenError,
>
    decreases t, 0int,
{
    match t {
        TreeV::CmpOp(l, _op, r) => match spec_gen_expr(*l, Reg::Rax, vars) {
            Ok(ll) => match spec_gen_expr(*r, Reg::Rbx, vars) {
                Ok(rl) => {
                    let mid: Seq<AsmLine> = if is_compound(*r) {
                        seq![AsmLine::MovReg(Reg::Rcx, Reg::Rax)] + rl + seq![
                            AsmLine::MovReg(Reg::Rax, Reg::Rcx),
                        ]
                    } else {
                        rl
                    };
                    Ok(
                        ll + mid + seq![
                            AsmLine::CmpRaxRbx,
                            AsmLine::SetCmp(k),
                            AsmLine::MovzxRaxAl,
                        ],
                    )
                },
                Err(e) => Err(e),
            },
            Err(e) => Err(e),
        },
        _ => Err(GenError::ExpectedCmpOp),
    }
}

/// A branch condition: the comparison's lines, then a test of the boolean
/// and a jump to `target` when it is false.
pub open spec fn spec_gen_if_cmp(cond: TreeV, target: int, vars: Seq<VarV>) -> Result<
    Seq<AsmLine>,
    GenError,
>
    decreases cond,
{
    match spec_gen_cmp_exp(cond, vars) {
        Ok(cl) => Ok(cl + seq![AsmLine::TestAl1, AsmLine::Jz(target as usize)]),
        Err(e) => Err(e),
    }
}

/// Store an initializer or assignment into a variable's slot: a literal is
/// stored directly, any other expression is evaluated into the accumulator
/// first.
pub open spec fn spec_handle_vars(name: Seq<char>, e: TreeV, vars: Seq<VarV>) -> Result<
    Seq<AsmLine>,
    GenError,
>
    decreases e,
{
    match e {
        TreeV::Number(n) => match spec_find_var(vars, name) {
            Some(v) => Ok(seq![AsmLine::StoreImm(v.stack_loc as usize, n)]),
            None => Err(GenError::UndeclaredVariable),
        },
        _ => match spec_gen_expr(e, Reg::Rax, vars) {
            Ok(el) => match spec_find_var(vars, name) {
                Some(v) => Ok(el + seq![AsmLine::StoreVar(v.stack_loc as usize, Reg::Rax)]),
                None => Err(GenError::UndeclaredVariable),
            },
            Err(e2) => Err(e2),
        },
    }
}

/// The label the `els` body is entered at: the false-target of the branch
/// just before it, which is the `if`'s when there are no `elsif`s and the
/// last `elsif`'s otherwise.
pub open spec fn els_entry(els_ifs: Seq<TreeV>, next_case: int) -> int {
    if els_ifs.len() == 0 {
        next_case
    } else {
        match els_ifs.last() {
            TreeV::ElsIf { next_case: x, .. } => x,
            _ => next_case,
        }
    }
}

/// The lines of one statement, with the binding table it leaves behind.
/// Only a declaration changes the table; every block restores it.
/// Expression trees in statement position emit nothing.
pub open spec fn spec_gen_stmt(t: TreeV, vars: Seq<VarV>) -> Result<
    (Seq<AsmLine>, Seq<VarV>),
    GenError,
>
    decreases t, 2int,
{
    match t {
        TreeV::Let(name, e) => {
            if is_declared(vars, name) {
                Err(GenError::AlreadyDeclared)
            } else {
                let nv = vars.push(VarV { name: name, stack_loc: vars.len() as int });
                match spec_handle_vars(name, *e, nv) {
                    Ok(l) => Ok((l, nv)),
                    Err(e2) => Err(e2),
                }
            }
        },
        TreeV::Assign(name, e) => match spec_handle_vars(name, *e, vars) {
            Ok(l) => Ok((l, vars)),
            Err(e2) => Err(e2),
        },
        TreeV::Inc(name) => match spec_find_var(vars, name) {
            Some(v) => Ok((seq![AsmLine::IncVar(v.stack_loc as usize)], vars)),
            None => Err(GenError::UndeclaredVariable),
        },
        TreeV::Dec(name) => match spec_find_var(vars, name) {
            Some(v) => Ok((seq![AsmLine::DecVar(v.stack_loc as usize)], vars)),
            None => Err(GenError::UndeclaredVariable),
        },
        TreeV::If { expr, body, last_case, next_case, els, els_ifs } => {
            match spec_gen_if_cmp(*expr, next_case, vars) {
                Ok(cond_l) => match spec_gen_scope(body, vars) {
                    Ok(body_l) => {
                        if next_case == last_case {
                            Ok(
                                (
                                    cond_l + body_l + seq![AsmLine::Label(next_case as usize)],
                                    vars,
                                ),
                            )
                        } else {
                            match spec_gen_elsifs(els_ifs, last_case, vars) {
                                Ok(eifs_l) => match els {
                                    Some(els_body) => match spec_gen_scope(els_body, vars) {
                                        Ok(els_l) => Ok(
                                            (
                                                cond_l + body_l + seq![
                                                    AsmLine::Jmp(last_case as usize),
                                                ] + eifs_l + seq![
                                                    AsmLine::Label(
                                                        els_entry(els_ifs, next_case) as usize,
                                                    ),
                                                ] + els_l + seq![
                                                    AsmLine::Label(last_case as usize),
                                                ],
                                                vars,
                                            ),
                                        ),
                                        Err(e2) => Err(e2),
                                    },
                                    None => Ok(
                                        (
                                            cond_l + body_l + seq![
                                                AsmLine::Jmp(last_case as usize),
                                            ] + eifs_l,
                                            vars,
                                        ),
                                    ),
                                },
                                Err(e2) => Err(e2),
                            }
                        }
                    },
                    Err(e2) => Err(e2),
                },
                Err(e2) => Err(e2),
            }
        },
        TreeV::While { expr, start, body, end } => match spec_gen_scope(body, vars) {
            Ok(body_l) => match spec_gen_cmp_exp(*expr, vars) {
                Ok(cond_l) => Ok(
                    (
                        seq![AsmLine::Jmp(end as usize), AsmLine::Label(start as usize)] + body_l
                            + seq![AsmLine::Label(end as usize)] + cond_l + seq![
                            AsmLine::TestAl1,
                            AsmLine::Jnz(start as usize),
                        ],
                        vars,
                    ),
                ),
                Err(e2) => Err(e2),
            },
            Err(e2) => Err(e2),
        },
        TreeV::SysCall(args) => {
            if args.len() == 0 || args.len() > 7 {
                Err(GenError::SysCallArity)
            } else {
                match spec_gen_syscall_args(args, 1, vars) {
                    Ok(al) => match spec_gen_expr(args[0], Reg::Rax, vars) {
                        Ok(nl) => Ok((al + nl + seq![AsmLine::Syscall], vars)),
                        Err(e2) => Err(e2),
                    },
                    Err(e2) => Err(e2),
                }
            }
        },
        TreeV::Exit(e) => match spec_gen_expr(*e, Reg::Rax, vars) {
            Ok(el) => Ok(
                (
                    el + seq![
                        AsmLine::Push(Reg::Rax),
                        AsmLine::MovImm(Reg::Rax, 60),
                        AsmLine::Pop(Reg::Rdi),
                        AsmLine::Syscall,
                    ],
                    vars,
                ),
            ),
            Err(e2) => Err(e2),
        },
        _ => Ok((Seq::empty(), vars)),
    }
}

/// The lines of the argument expressions from position `i` on, each moved
/// into its fixed syscall argument register.
pub open spec fn spec_gen_syscall_args(args: Seq<TreeV>, i: int, vars: Seq<VarV>) -> Result<
    Seq<AsmLine>,
    GenError,
>
    decreases args.len() - i,
{
    if i < 1 || i >= args.len() {
        Ok(Seq::empty())
    } else {
        match spec_gen_expr(args[i], syscall_reg(i - 1), vars) {
            Ok(l) => match spec_gen_syscall_args(args, i + 1, vars) {
                Ok(rest) => Ok(l + rest),
                Err(e) => Err(e),
            },
            Err(e) => Err(e),
        }
    }
}

/// The lines of a statement sequence, threading the binding table.
pub open spec fn spec_gen_seq(ts: Seq<TreeV>, vars: Seq<VarV>) -> Result<
    (Seq<AsmLine>, Seq<VarV>),
    GenError,
>
    decreases ts, 0int,
{
    if ts.len() == 0 {
        Ok((Seq::empty(), vars))
    } else {
        match spec_gen_stmt(ts[0], vars) {
            Ok((l1, v1)) => match spec_gen_seq(ts.drop_first(), v1) {
                Ok((l2, v2)) => Ok((l1 + l2, v2)),
                Err(e) => Err(e),
            },
            Err(e) => Err(e),
        }
    }
}

/// The lines of a block body.  The bindings declared inside are discarded
/// when the block ends: the table outside the block is unchanged.
pub open spec fn spec_gen_scope(body: Seq<TreeV>, vars: Seq<VarV>) -> Result<
    Seq<AsmLine>,
    GenError,
>
    decreases body, 1int,
{
    match spec_gen_seq(body, vars) {
        Ok((l, _inner)) => Ok(l),
        Err(e) => Err(e),
    }
}

/// The lines of one `elsif` clause: its entry label, its condition jumping
/// to its false-target, its body, then a jump to the join label, or the
/// join label itself when this clause's false-target is the join.
pub open spec fn spec_gen_elsif_stmt(t: TreeV, last_case: int, vars: Seq<VarV>) -> Result<
    Seq<AsmLine>,
    GenError,
>
    decreases t, 3int,
{
    match t {
        TreeV::ElsIf { curr_case, expr, body, next_case } => {
            match spec_gen_if_cmp(*expr, next_case, vars) {
                Ok(cl) => match spec_gen_scope(body, vars) {
                    Ok(bl) => {
                        let tail: Seq<AsmLine> = if next_case != last_case {
                            seq![AsmLine::Jmp(last_case as usize)]
                        } else {
                            seq![AsmLine::Label(last_case as usize)]
                        };
                        Ok(seq![AsmLine::Label(curr_case as usize)] + cl + bl + tail)
                    },
                    Err(e) => Err(e),
                },
                Err(e) => Err(e),
            }
        },
        _ => Err(GenError::ExpectedElsIf),
    }
}

/// The lines of an `elsif` chain, in order.  The binding table is the same
/// for every clause.
pub open spec fn spec_gen_elsifs(eifs: Seq<TreeV>, last_case: int, vars: Seq<VarV>) -> Result<
    Seq<AsmLine>,
    GenError,
>
    decreases eifs, 0int,
{
    if eifs.len() == 0 {
        Ok(Seq::empty())
    } else {
        match spec_gen_elsif_stmt(eifs[0], last_case, vars) {
            Ok(l1) => match spec_gen_elsifs(eifs.drop_first(), last_case, vars) {
                Ok(l2) => Ok(l1 + l2),
                Err(e) => Err(e),
            },
            Err(e) => Err(e),
        }
    }
}

/// The lines of a whole program, generated from an empty binding table.
pub open spec fn spec_gen_program(ts: Seq<TreeV>) -> Result<Seq<AsmLine>, GenError> {
    match spec_gen_seq(ts, Seq::empty()) {
        Ok((l, _vars)) => Ok(l),
        Err(e) => Err(e),
    }
}

/// Law: scope restoration.  A conditional or loop statement leaves the
/// binding table exactly as it found it — the bindings its blocks declared
/// are gone when it ends — so any name afterwards resolves to the same
/// binding, with the same stack slot, as before the block.
pub proof fn lemma_scope_restoration(t: TreeV, vars: Seq<VarV>, name: Seq<char>)
    requires
        t is If || t is While,
    ensures
        spec_gen_stmt(t, vars) matches Ok((l, v2)) ==> v2 == vars && spec_find_var(v2, name)
            == spec_find_var(vars, name),
{
}

/// Law: redeclaration rejection.  Declaring a name that is already live
/// always fails generation, whatever the initializer.
pub proof fn lemma_redeclaration_rejected(name: Seq<char>, e: TreeV, vars: Seq<VarV>)
    requires
        is_declared(vars, name),
    ensures
        spec_gen_stmt(TreeV::Let(name, Box::new(e)), vars) == Err::<
            (Seq<AsmLine>, Seq<VarV>),
            GenError,
        >(GenError::AlreadyDeclared),
{
}

proof fn lemma_find_var_push(vars: Seq<VarV>, v: VarV)
    requires
        !is_declared(vars, v.name),
    ensures
        spec_find_var(vars.push(v), v.name) == Some(v),
    decreases vars.len(),
{
    if vars.len() == 0 {
        assert(vars.push(v)[0] == v);
    } else {
        assert(vars[0].name != v.name);
        assert(vars.push(v)[0] == vars[0]);
        assert(vars.push(v).drop_first() =~= vars.drop_first().push(v));
        lemma_find_var_push(vars.drop_first(), v);
    }
}

/// Law: declaring a name again after its scope has ended succeeds.  A
/// conditional or loop restores the binding table, so a name that was not
/// live before the block is not live after it, and a fresh declaration
/// with a literal initializer is accepted.
pub proof fn lemma_redeclaration_after_scope(t: TreeV, vars: Seq<VarV>, name: Seq<char>, n: usize)
    requires
        t is If || t is While,
        !is_declared(vars, name),
    ensures
        spec_gen_stmt(t, vars) matches Ok((l, v2)) ==> spec_gen_stmt(
            TreeV::Let(name, Box::new(TreeV::Number(n))),
            v2,
        ) is Ok,
{
    if spec_gen_stmt(t, vars) is Ok {
        lemma_scope_restoration(t, vars, name);
        let nv = vars.push(VarV { name: name, stack_loc: vars.len() as int });
        lemma_find_var_push(vars, VarV { name: name, stack_loc: vars.len() as int });
    }
}

/// A statement leaves the bindings it received in place: the table it
/// returns extends the one it was given (a declaration appends one).
pub proof fn lemma_gen_stmt_extends(t: TreeV, v: Seq<VarV>)
    ensures
        spec_gen_stmt(t, v) matches Ok((l, v2)) ==> v.len() <= v2.len() && v2.take(
            v.len() as int,
        ) == v,
{
    assert(v.take(v.len() as int) =~= v);
    match t {
        TreeV::Let(name, _e) => {
            let nv = v.push(VarV { name: name, stack_loc: v.len() as int });
            assert(nv.take(v.len() as int) =~= v);
        },
        _ => {},
    }
}

/// A statement sequence likewise only extends the binding table.
pub proof fn lemma_gen_seq_extends(ts: Seq<TreeV>, v: Seq<VarV>)
    ensures
        spec_gen_seq(ts, v) matches Ok((l, v2)) ==> v.len() <= v2.len() && v2.take(
            v.len() as int,
        ) == v,
    decreases ts,
{
    if ts.len() > 0 {
        match spec_gen_stmt(ts[0], v) {
            Ok((l1, v1)) => {
                lemma_gen_stmt_extends(ts[0], v);
                lemma_gen_seq_extends(ts.drop_first(), v1);
                match spec_gen_seq(ts.drop_first(), v1) {
                    Ok((l2, v2)) => {
                        assert(v2.take(v.len() as int) =~= v1.take(v.len() as int));
                    },
                    Err(_) => {},
                }
            },
            Err(_) => {},
        }
    }
}

proof fn lemma_find_var_skip(vars: Seq<VarV>, name: Seq<char>, i: int)
    requires
        0 <= i <= vars.len(),
        forall|k: int| 0 <= k < i ==> vars[k].name != name,
    ensures
        spec_find_var(vars, name) == spec_find_var(vars.skip(i), name),
    decreases i,
{
    if i > 0 {
        assert(vars[0].name != name);
        assert(forall|k: int| 0 <= k < i - 1 ==> #[trigger] vars.drop_first()[k].name != name);
        lemma_find_var_skip(vars.drop_first(), name, i - 1);
        assert(vars.drop_first().skip(i - 1) =~= vars.skip(i));
    } else {
        assert(vars.skip(0) =~= vars);
    }
}

fn is_compound_exec(t: &Tree) -> (r: bool)
    ensures
        r == is_compound(tree_view(*t)),
{
    matches!(t, Tree::BinOp(..) | Tree::CmpOp(..))
}

fn bin_kind_exec(op: &Token) -> (r: Option<BinKind>)
    ensures
        r == bin_kind(op@),
{
    match op {
        Token::Plus => Some(BinKind::Add),
        Token::Minus => Some(BinKind::Sub),
        Token::Multiply => Some(BinKind::Imul),
        Token::Divide => Some(BinKind::Div),
        _ => None,
    }
}

fn cmp_kind_exec(op: &Token) -> (r: Option<CmpKind>)
    ensures
        r == cmp_kind(op@),
{
    match op {
        Token::EquEqu => Some(CmpKind::Eq),
        Token::NotEqu => Some(CmpKind::Ne),
        Token::Greater => Some(CmpKind::Gt),
        Token::GreatEqu => Some(CmpKind::Ge),
        Token::Less => Some(CmpKind::Lt),
        Token::LessEqu => Some(CmpKind::Le),
        _ => None,
    }
}

fn bin_line_exec(k: BinKind, a: Reg, b: Reg) -> (r: AsmLine)
    ensures
        r == bin_line(k, a, b),
{
    match k {
        BinKind::Add => AsmLine::Add(a, b),
        BinKind::Sub => AsmLine::Sub(a, b),
        BinKind::Imul => AsmLine::Imul(a, b),
        BinKind::Div => AsmLine::Div(b),
    }
}

fn syscall_reg_exec(i: usize) -> (r: Reg)
    ensures
        r == syscall_reg(i as int),
{
    if i == 0 {
        Reg::Rdi
    } else if i == 1 {
        Reg::Rsi
    } else if i == 2 {
        Reg::Rdx
    } else if i == 3 {
        Reg::R10
    } else if i == 4 {
        Reg::R8
    } else {
        Reg::R9
    }
}

/// Copy one tree; the copy has the same mathematical value.
fn clone_tree(t: &Tree) -> (r: Tree)
    ensures
        tree_view(r) == tree_view(*t),
    decreases *t,
{
    match t {
        Tree::Number(n) => Tree::Number(*n),
        Tree::Ident(s) => Tree::Ident(s.clone()),
        Tree::Empty => Tree::Empty,
        Tree::Str(s) => Tree::Str(s.clone()),
        Tree::BinOp(l, op, r) => Tree::BinOp(
            Box::new(clone_tree(l)),
            crate::parser::clone_token(op),
            Box::new(clone_tree(r)),
        ),
        Tree::CmpOp(l, op, r) => Tree::CmpOp(
            Box::new(clone_tree(l)),
            crate::parser::clone_token(op),
            Box::new(clone_tree(r)),
        ),
        Tree::Inc(s) => Tree::Inc(s.clone()),
        Tree::Dec(s) => Tree::Dec(s.clone()),
        Tree::Exit(e) => Tree::Exit(Box::new(clone_tree(e))),
        Tree::Let(s, e) => Tree::Let(s.clone(), Box::new(clone_tree(e))),
        Tree::Assign(s, e) => Tree::Assign(s.clone(), Box::new(clone_tree(e))),
        Tree::SysCall(args) => Tree::SysCall(clone_trees(args)),
        Tree::If { expr, body, last_case, next_case, els, els_ifs } => Tree::If {
            expr: Box::new(clone_tree(expr)),
            body: clone_trees(body),
            last_case: *last_case,
            next_case: *next_case,
            els: match els {
                Some(b) => Some(clone_trees(b)),
                None => None,
            },
            els_ifs: clone_trees(els_ifs),
        },
        Tree::ElsIf { curr_case, expr, body, next_case } => Tree::ElsIf {
            curr_case: *curr_case,
            expr: Box::new(clone_tree(expr)),
            body: clone_trees(body),
            next_case: *next_case,
        },
        Tree::While { expr, start, body, end } => Tree::While {
            expr: Box::new(clone_tree(expr)),
            start: *start,
            body: clone_trees(body),
            end: *end,
        },
        Tree::For { var, expr, body } => Tree::For {
            var: var.clone(),
            expr: Box::new(clone_tree(expr)),
            body: clone_trees(body),
        },
    }
}

/// Copy a tree sequence, value for value.
fn clone_trees(v: &Vec<Tree>) -> (r: Vec<Tree>)
    ensures
        seq_tree_view(r@) == seq_tree_view(v@),
    decreases v@,
{
    let mut r: Vec<Tree> = Vec::new();
    let mut i: usize = 0;
    while i < v.len()
        invariant
            i <= v@.len(),
            r@.len() == i,
            forall|k: int| 0 <= k < i ==> tree_view(#[trigger] r@[k]) == tree_view(v@[k]),
        decreases v@.len() - i,
    {
        r.push(clone_tree(&v[i]));
        i = i + 1;
    }
    proof {
        lemma_seq_tree_view_len(r@);
        lemma_seq_tree_view_len(v@);
        assert(seq_tree_view(r@) =~= seq_tree_view(v@));
    }
    r
}

/// The code generator.  Holds the statement trees, the live binding table
/// and the scope stack of saved binding counts.
pub struct Generator {
    tree: Vec<Tree>,
    vars: Vec<Var>,
    scopes: Vec<usize>,
}

impl Generator {
    /// The mathematical value of the held statement trees.
    pub closed spec fn trees(&self) -> Seq<TreeV> {
        seq_tree_view(self.tree@)
    }

    /// The mathematical value of the live binding table.
    pub closed spec fn vars_v(&self) -> Seq<VarV> {
        vars_view(self.vars@)
    }

    pub fn new(tree: &Vec<Tree>) -> (g: Generator)
        ensures
            g.trees() == seq_tree_view(tree@),
            g.vars_v() == Seq::<VarV>::empty(),
    {
        let g = Generator { tree: clone_trees(tree), vars: Vec::new(), scopes: Vec::new() };
        proof {
            assert(vars_view(Seq::<Var>::empty()) =~= Seq::<VarV>::empty());
        }
        g
    }

    /// Look up a live binding by name; the first match wins (names are
    /// unique among live bindings, so it is the only one).
    fn find_var(&self, ident: &String) -> (r: Option<usize>)
        ensures
            match r {
                Some(s) => spec_find_var(self.vars_v(), ident@) matches Some(v) && v.stack_loc
                    == s as int,
                None => spec_find_var(self.vars_v(), ident@) is None,
            },
    {
        let mut i: usize = 0;
        while i < self.vars.len()
            invariant
                i <= self.vars@.len(),
                forall|k: int| 0 <= k < i ==> vars_view(self.vars@)[k].name != ident@,
            decreases self.vars@.len() - i,
        {
            if self.vars[i].name == *ident {
                proof {
                    lemma_find_var_skip(self.vars_v(), ident@, i as int);
                    assert(self.vars_v().skip(i as int)[0] == self.vars_v()[i as int]);
                }
                return Some(self.vars[i].stack_loc);
            }
            i = i + 1;
        }
        proof {
            lemma_find_var_skip(self.vars_v(), ident@, self.vars@.len() as int);
            assert(self.vars_v().skip(self.vars@.len() as int) =~= Seq::<VarV>::empty());
        }
        None
    }

    /// Emit a push of a register.
    fn push(&self, rg: Reg, out: &mut Vec<AsmLine>)
        ensures
            final(out)@ == old(out)@ + seq![AsmLine::Push(rg)],
    {
        out.push(AsmLine::Push(rg));
        proof {
            assert(final(out)@ =~= old(out)@ + seq![AsmLine::Push(rg)]);
        }
    }

    /// Emit a pop into a register.
    fn pop(&self, rg: Reg, out: &mut Vec<AsmLine>)
        ensures
            final(out)@ == old(out)@ + seq![AsmLine::Pop(rg)],
    {
        out.push(AsmLine::Pop(rg));
        proof {
            assert(final(out)@ =~= old(out)@ + seq![AsmLine::Pop(rg)]);
        }
    }

    /// Emit the lines that evaluate an expression into a register.
    fn gen_expr(&self, tree: &Tree, reg: Reg, out: &mut Vec<AsmLine>) -> (r: Result<(), GenError>)
        ensures
            match r {
                Ok(_) => spec_gen_expr(tree_view(*tree), reg, self.vars_v()) matches Ok(l) && final(out)@ == old(out)@ + l,
                Err(e) => spec_gen_expr(tree_view(*tree), reg, self.vars_v()) == Err::<
                    Seq<AsmLine>,
                    GenError,
                >(e),
            },
        decreases *tree, 2int,
    {
        match tree {
            Tree::Number(n) => {
                out.push(AsmLine::MovImm(reg, *n));
                proof {
                    assert(out@ =~= old(out)@ + seq![AsmLine::MovImm(reg, *n)]);
                }
                Ok(())
            },
            Tree::Ident(name) => match self.find_var(name) {
                Some(slot) => {
                    out.push(AsmLine::LoadVar(reg, slot));
                    proof {
                        assert(out@ =~= old(out)@ + seq![AsmLine::LoadVar(reg, slot)]);
                    }
                    Ok(())
                },
                None => Err(GenError::UndeclaredVariable),
            },
            Tree::BinOp(..) => self.gen_bin_exp(tree, reg, out),
            Tree::CmpOp(..) => self.gen_cmp_exp(tree, out),
            Tree::Empty => {
                proof {
                    assert(out@ =~= old(out)@ + Seq::<AsmLine>::empty());
                }
                Ok(())
            },
            _ => Err(GenError::UnexpectedExpr),
        }
    }

    /// Emit an arithmetic node, dispatching on its operator token.
    fn gen_bin_exp(&self, tree: &Tree, reg: Reg, out: &mut Vec<AsmLine>) -> (r: Result<
        (),
        GenError,
    >)
        ensures
            match r {
                Ok(_) => spec_gen_bin_exp(tree_view(*tree), reg, self.vars_v()) matches Ok(l)
                    && final(out)@ == old(out)@ + l,
                Err(e) => spec_gen_bin_exp(tree_view(*tree), reg, self.vars_v()) == Err::<
                    Seq<AsmLine>,
                    GenError,
                >(e),
            },
        decreases *tree, 1int,
    {
        match tree {
            Tree::BinOp(_, op, _) => match bin_kind_exec(op) {
                Some(k) => self.gen_bin_op(tree, k, reg, out),
                None => Err(GenError::InvalidOperator),
            },
            _ => Err(GenError::ExpectedBinOp),
        }
    }

    /// Emit one arithmetic operation; see `spec_gen_bin_op` for the
    /// register policy.
    #[verifier::rlimit(100)]
    #[verifier::spinoff_prover]
    fn gen_bin_op(&self, tree: &Tree, k: BinKind, reg: Reg, out: &mut Vec<AsmLine>) -> (r: Result<
        (),
        GenError,
    >)
        ensures
            match r {
                Ok(_) => spec_gen_bin_op(tree_view(*tree), k, reg, self.vars_v()) matches Ok(l)
                    && final(out)@ == old(out)@ + l,
                Err(e) => spec_gen_bin_op(tree_view(*tree), k, reg, self.vars_v()) == Err::<
                    Seq<AsmLine>,
                    GenError,
                >(e),
            },
        decreases *tree, 0int,
    {
        match tree {
            Tree::BinOp(l, _op, r) => {
                let ghost base = out@;
                match self.gen_expr(l, Reg::Rax, out) {
                    Ok(_) => (),
                    Err(e) => {
                        return Err(e);
                    },
                }
                let ghost ll = out@.skip(base.len() as int);
                let cl = is_compound_exec(l);
                let cr = is_compound_exec(r);
                let spill = cl || cr;
                let lreg: Reg = if spill {
                    Reg::Rcx
                } else {
                    Reg::Rax
                };
                let rreg: Reg = if cl && cr {
                    Reg::Rax
                } else {
                    Reg::Rbx
                };
                if spill {
                    out.push(AsmLine::MovReg(Reg::Rcx, Reg::Rax));
                }
                let ghost mid = out@.skip((base.len() + ll.len()) as int);
                match self.gen_expr(r, Reg::Rbx, out) {
                    Ok(_) => (),
                    Err(e) => {
                        return Err(e);
                    },
                }
                let ghost rl = out@.skip((base.len() + ll.len() + mid.len()) as int);
                if matches!(k, BinKind::Div) {
                    if lreg != Reg::Rax {
                        out.push(AsmLine::MovReg(Reg::Rax, lreg));
                    }
                    if rreg != Reg::Rbx {
                        out.push(AsmLine::MovReg(Reg::Rbx, rreg));
                    }
                    out.push(AsmLine::Xor(Reg::Rdx, Reg::Rdx));
                    out.push(AsmLine::Div(Reg::Rbx));
                } else {
                    out.push(bin_line_exec(k, lreg, rreg));
                }
                let fin_lreg: Reg = if matches!(k, BinKind::Div) {
                    Reg::Rax
                } else {
                    lreg
                };
                if fin_lreg != reg {
                    out.push(AsmLine::MovReg(reg, fin_lreg));
                }
                proof {
                    let res = spec_gen_bin_op(tree_view(*tree), k, reg, self.vars_v());
                    if matches!(k, BinKind::Div) {
                        if spill {
                            if cl && cr {
                                if fin_lreg != reg {
                                assert(res matches Ok(lines) && out@ =~= base + lines);
                            } else {
                                assert(res matches Ok(lines) && out@ =~= base + lines);
                            }
                            } else {
                                if fin_lreg != reg {
                                assert(res matches Ok(lines) && out@ =~= base + lines);
                            } else {
                                assert(res matches Ok(lines) && out@ =~= base + lines);
                            }
                            }
                        } else {
                            if fin_lreg != reg {
                                assert(res matches Ok(lines) && out@ =~= base + lines);
                            } else {
                                assert(res matches Ok(lines) && out@ =~= base + lines);
                            }
                        }
                    } else {
                        if spill {
                            if cl && cr {
                                if fin_lreg != reg {
                                assert(res matches Ok(lines) && out@ =~= base + lines);
                            } else {
                                assert(res matches Ok(lines) && out@ =~= base + lines);
                            }
                            } else {
                                if fin_lreg != reg {
                                assert(res matches Ok(lines) && out@ =~= base + lines);
                            } else {
                                assert(res matches Ok(lines) && out@ =~= base + lines);
                            }
                            }
                        } else {
                            if fin_lreg != reg {
                                assert(res matches Ok(lines) && out@ =~= base + lines);
                            } else {
                                assert(res matches Ok(lines) && out@ =~= base + lines);
                            }
                        }
                    }
                }
                Ok(())
            },
            _ => Err(GenError::ExpectedBinOp),
        }
    }

    /// Emit a comparison node, dispatching on its operator token.
    fn gen_cmp_exp(&self, tree: &Tree, out: &mut Vec<AsmLine>) -> (r: Result<(), GenError>)
        ensures
            match r {
                Ok(_) => spec_gen_cmp_exp(tree_view(*tree), self.vars_v()) matches Ok(l) && final(out)@ == old(out)@ + l,
                Err(e) => spec_gen_cmp_exp(tree_view(*tree), self.vars_v()) == Err::<
                    Seq<AsmLine>,
                    GenError,
                >(e),
            },
        decreases *tree, 1int,
    {
        match tree {
            Tree::CmpOp(_, op, _) => match cmp_kind_exec(op) {
                Some(k) => self.gen_cmp_op(tree, k, out),
                None => Err(GenError::InvalidOperator),
            },
            _ => Err(GenError::ExpectedCmpOp),
        }
    }

    /// Emit one comparison; the 0/1 result is left zero-extended in the
    /// accumulator.
    #[verifier::rlimit(100)]
    fn gen_cmp_op(&self, tree: &Tree, k: CmpKind, out: &mut Vec<AsmLine>) -> (r: Result<
        (),
        GenError,
    >)
        ensures
            match r {
                Ok(_) => spec_gen_cmp_op(tree_view(*tree), k, self.vars_v()) matches Ok(l) && final(out)@ == old(out)@ + l,
                Err(e) => spec_gen_cmp_op(tree_view(*tree), k, self.vars_v()) == Err::<
                    Seq<AsmLine>,
                    GenError,
                >(e),
            },
        decreases *tree, 0int,
    {
        match tree {
            Tree::CmpOp(l, _op, r) => {
                let ghost base = out@;
                match self.gen_expr(l, Reg::Rax, out) {
                    Ok(_) => (),
                    Err(e) => {
                        return Err(e);
                    },
                }
                if is_compound_exec(r) {
                    out.push(AsmLine::MovReg(Reg::Rcx, Reg::Rax));
                    match self.gen_expr(r, Reg::Rbx, out) {
                        Ok(_) => (),
                        Err(e) => {
                            return Err(e);
                        },
                    }
                    out.push(AsmLine::MovReg(Reg::Rax, Reg::Rcx));
                } else {
                    match self.gen_expr(r, Reg::Rbx, out) {
                        Ok(_) => (),
                        Err(e) => {
                            return Err(e);
                        },
                    }
                }
                out.push(AsmLine::CmpRaxRbx);
                out.push(AsmLine::SetCmp(k));
                out.push(AsmLine::MovzxRaxAl);
                proof {
                    let res = spec_gen_cmp_op(tree_view(*tree), k, self.vars_v());
                    assert(res matches Ok(lines) && out@ =~= base + lines);
                }
                Ok(())
            },
            _ => Err(GenError::ExpectedCmpOp),
        }
    }

    /// Emit a branch condition: the comparison, then a test and a jump to
    /// `target` when it is false.
    fn gen_if_cmp(&self, expr: &Tree, target: usize, out: &mut Vec<AsmLine>) -> (r: Result<
        (),
        GenError,
    >)
        ensures
            match r {
                Ok(_) => spec_gen_if_cmp(tree_view(*expr), target as int, self.vars_v()) matches Ok(
                    l,
                ) && final(out)@ == old(out)@ + l,
                Err(e) => spec_gen_if_cmp(tree_view(*expr), target as int, self.vars_v()) == Err::<
                    Seq<AsmLine>,
                    GenError,
                >(e),
            },
    {
        let ghost base = out@;
        match self.gen_cmp_exp(expr, out) {
            Ok(_) => (),
            Err(e) => {
                return Err(e);
            },
        }
        out.push(AsmLine::TestAl1);
        out.push(AsmLine::Jz(target));
        proof {
            let res = spec_gen_if_cmp(tree_view(*expr), target as int, self.vars_v());
            assert(res matches Ok(lines) && out@ =~= base + lines);
        }
        Ok(())
    }

    /// Emit the store of an initializer or assignment into a variable's
    /// slot.
    fn handle_vars(&self, ident: &String, expr: &Tree, out: &mut Vec<AsmLine>) -> (r: Result<
        (),
        GenError,
    >)
        ensures
            match r {
                Ok(_) => spec_handle_vars(ident@, tree_view(*expr), self.vars_v()) matches Ok(l)
                    && final(out)@ == old(out)@ + l,
                Err(e) => spec_handle_vars(ident@, tree_view(*expr), self.vars_v()) == Err::<
                    Seq<AsmLine>,
                    GenError,
                >(e),
            },
    {
        match expr {
            Tree::Number(n) => match self.find_var(ident) {
                Some(slot) => {
                    out.push(AsmLine::StoreImm(slot, *n));
                    proof {
                        assert(out@ =~= old(out)@ + seq![AsmLine::StoreImm(slot, *n)]);
                    }
                    Ok(())
                },
                None => Err(GenError::UndeclaredVariable),
            },
            _ => {
                let ghost base = out@;
                match self.gen_expr(expr, Reg::Rax, out) {
                    Ok(_) => (),
                    Err(e) => {
                        return Err(e);
                    },
                }
                match self.find_var(ident) {
                    Some(slot) => {
                        out.push(AsmLine::StoreVar(slot, Reg::Rax));
                        proof {
                            let res = spec_handle_vars(ident@, tree_view(*expr), self.vars_v());
                            assert(res matches Ok(lines) && out@ =~= base + lines);
                        }
                        Ok(())
                    },
                    None => Err(GenError::UndeclaredVariable),
                }
            },
        }
    }

    /// Save the current number of live bindings as a new scope mark.
    fn begin_scope(&mut self)
        ensures
            final(self).tree == old(self).tree,
            final(self).vars == old(self).vars,
            final(self).scopes@.len() == old(self).scopes@.len() + 1,
            final(self).scopes@.last() as int == old(self).vars@.len(),
            final(self).scopes@.drop_last() == old(self).scopes@,
    {
        let l = self.vars.len();
        self.scopes.push(l);
        proof {
            assert(final(self).scopes@.drop_last() =~= old(self).scopes@);
        }
    }

    /// Leave the innermost scope: discard the bindings declared since its
    /// mark.  Only the compile-time table shrinks; the emitted code's
    /// stack pointer is untouched.
    fn end_scope(&mut self)
        requires
            old(self).scopes@.len() > 0,
            old(self).scopes@.last() <= old(self).vars@.len(),
        ensures
            final(self).tree == old(self).tree,
            final(self).scopes@ == old(self).scopes@.drop_last(),
            final(self).vars@ == old(self).vars@.take(old(self).scopes@.last() as int),
    {
        let mark: usize = match self.scopes.pop() {
            Some(m) => m,
            None => 0,
        };
        self.vars.truncate(mark);
    }

    /// Emit a block body inside its own scope: generate each statement,
    /// then drop the bindings the block declared, restoring the table.
    #[verifier::rlimit(100)]
    #[verifier::loop_isolation(false)]
    fn create_scope(&mut self, body: &Vec<Tree>, out: &mut Vec<AsmLine>) -> (r: Result<
        (),
        GenError,
    >)
        ensures
            final(self).tree == old(self).tree,
            match r {
                Ok(_) => spec_gen_scope(seq_tree_view(body@), old(self).vars_v()) matches Ok(l)
                    && final(out)@ == old(out)@ + l && final(self).vars_v() == old(self).vars_v()
                    && final(self).scopes@ == old(self).scopes@,
                Err(e) => spec_gen_scope(seq_tree_view(body@), old(self).vars_v()) == Err::<
                    Seq<AsmLine>,
                    GenError,
                >(e),
            },
        decreases body@, 4int,
    {
        let ghost full = seq_tree_view(body@);
        let ghost vars0 = self.vars_v();
        let ghost base = out@;
        proof {
            lemma_seq_tree_view_len(body@);
        }
        self.begin_scope();
        let ghost scopes1 = self.scopes@;
        let ghost tree0 = self.tree;
        let mut i: usize = 0;
        proof {
            assert(full.skip(0) =~= full);
            assert(out@.skip(base.len() as int) =~= Seq::<AsmLine>::empty());
            assert(out@.take(base.len() as int) =~= base);
            match spec_gen_seq(full, vars0) {
                Ok((l2, vf)) => {
                    assert(out@.skip(base.len() as int) + l2 =~= l2);
                },
                Err(_) => {},
            }
        }
        while i < body.len()
            invariant
                i <= body@.len(),
                full == seq_tree_view(body@),
                full.len() == body@.len(),
                forall|k: int| 0 <= k < body@.len() ==> full[k] == tree_view(body@[k]),
                self.tree == tree0,
                self.scopes@ == scopes1,
                base.len() <= out@.len(),
                out@.take(base.len() as int) == base,
                match spec_gen_seq(full.skip(i as int), self.vars_v()) {
                    Ok((l2, vf)) => spec_gen_seq(full, vars0) == Ok::<
                        (Seq<AsmLine>, Seq<VarV>),
                        GenError,
                    >((out@.skip(base.len() as int) + l2, vf)),
                    Err(e) => spec_gen_seq(full, vars0) == Err::<
                        (Seq<AsmLine>, Seq<VarV>),
                        GenError,
                    >(e),
                },
            decreases body@.len() - i,
        {
            let ghost prev_out = out@;
            let ghost prev_vars = self.vars_v();
            proof {
                assert(decreases_to!(body@ => body@[i as int]));
            }
            let res = self.gen_linux_64_program(&body[i], out);
            proof {
                assert(full.skip(i as int)[0] == tree_view(body@[i as int]));
            }
            match res {
                Ok(_) => {},
                Err(e) => {
                    return Err(e);
                },
            }
            proof {
                let s_i = full.skip(i as int);
                let delta = out@.skip(prev_out.len() as int);
                assert(prev_out + delta =~= out@);
                assert(out@.take(base.len() as int) =~= base);
                assert(out@.skip(base.len() as int) =~= prev_out.skip(base.len() as int) + delta);
                assert(s_i.drop_first() =~= full.skip(i + 1));
                let stmt_res = spec_gen_stmt(s_i[0], prev_vars);
                assert(stmt_res matches Ok((l1, v1)) && l1 =~= delta && v1 == self.vars_v());
                match spec_gen_seq(full.skip(i + 1), self.vars_v()) {
                    Ok((l2, vf)) => {
                        assert(spec_gen_seq(s_i, prev_vars) == Ok::<
                            (Seq<AsmLine>, Seq<VarV>),
                            GenError,
                        >((delta + l2, vf)));
                        assert(prev_out.skip(base.len() as int) + (delta + l2) =~= (prev_out.skip(
                            base.len() as int,
                        ) + delta) + l2);
                    },
                    Err(e) => {
                        assert(spec_gen_seq(s_i, prev_vars) == Err::<
                            (Seq<AsmLine>, Seq<VarV>),
                            GenError,
                        >(e));
                    },
                }
            }
            i = i + 1;
        }
        proof {
            assert(full.skip(body@.len() as int) =~= Seq::<TreeV>::empty());
            match spec_gen_seq(full.skip(body@.len() as int), self.vars_v()) {
                Ok((l2, vf)) => {
                    assert(l2 == Seq::<AsmLine>::empty());
                    assert(out@.skip(base.len() as int) + l2 =~= out@.skip(base.len() as int));
                },
                Err(_) => {},
            }
            lemma_gen_seq_extends(full, vars0);
            assert(self.scopes@.last() as int == vars0.len());
            assert(vars0.len() <= self.vars_v().len());
            assert(self.vars_v().len() == self.vars@.len());
        }
        let ghost pre_end = self.vars@;
        self.end_scope();
        proof {
            assert(self.vars@ == pre_end.take(vars0.len() as int));
            assert(vars_view(pre_end.take(vars0.len() as int)) =~= vars_view(pre_end).take(
                vars0.len() as int,
            ));
            assert(self.vars_v() == vars0);
        }
        Ok(())
    }

    /// Emit one `elsif` clause; the binding table is left unchanged.
    #[verifier::rlimit(100)]
    fn gen_elsif_stmt(&mut self, stmt: &Tree, last_case: usize, out: &mut Vec<AsmLine>) -> (r:
        Result<(), GenError>)
        ensures
            final(self).tree == old(self).tree,
            match r {
                Ok(_) => spec_gen_elsif_stmt(tree_view(*stmt), last_case as int, old(self).vars_v())
                    matches Ok(l) && final(out)@ == old(out)@ + l && final(self).vars_v() == old(
                    self,
                ).vars_v() && final(self).scopes@ == old(self).scopes@,
                Err(e) => spec_gen_elsif_stmt(
                    tree_view(*stmt),
                    last_case as int,
                    old(self).vars_v(),
                ) == Err::<Seq<AsmLine>, GenError>(e),
            },
        decreases *stmt, 5int,
    {
        match stmt {
            Tree::ElsIf { curr_case, expr, body, next_case } => {
                let ghost base = out@;
                out.push(AsmLine::Label(*curr_case));
                match self.gen_if_cmp(expr, *next_case, out) {
                    Ok(_) => (),
                    Err(e) => {
                        return Err(e);
                    },
                }
                match self.create_scope(body, out) {
                    Ok(_) => (),
                    Err(e) => {
                        return Err(e);
                    },
                }
                if *next_case != last_case {
                    out.push(AsmLine::Jmp(last_case));
                } else {
                    out.push(AsmLine::Label(last_case));
                }
                proof {
                    let res = spec_gen_elsif_stmt(
                        tree_view(*stmt),
                        last_case as int,
                        old(self).vars_v(),
                    );
                    assert(res matches Ok(lines) && out@ =~= base + lines);
                }
                Ok(())
            },
            _ => Err(GenError::ExpectedElsIf),
        }
    }

    /// Emit every clause of an `elsif` chain, in order.
    #[verifier::rlimit(100)]
    #[verifier::loop_isolation(false)]
    fn gen_elsifs(&mut self, eifs: &Vec<Tree>, last_case: usize, out: &mut Vec<AsmLine>) -> (r:
        Result<(), GenError>)
        ensures
            final(self).tree == old(self).tree,
            match r {
                Ok(_) => spec_gen_elsifs(seq_tree_view(eifs@), last_case as int, old(self).vars_v())
                    matches Ok(l) && final(out)@ == old(out)@ + l && final(self).vars_v() == old(
                    self,
                ).vars_v() && final(self).scopes@ == old(self).scopes@,
                Err(e) => spec_gen_elsifs(
                    seq_tree_view(eifs@),
                    last_case as int,
                    old(self).vars_v(),
                ) == Err::<Seq<AsmLine>, GenError>(e),
            },
        decreases eifs@, 4int,
    {
        let ghost full = seq_tree_view(eifs@);
        let ghost vars1 = self.vars_v();
        let ghost scopes1 = self.scopes@;
        let ghost tree1 = self.tree;
        let ghost base = out@;
        proof {
            lemma_seq_tree_view_len(eifs@);
            assert(full.skip(0) =~= full);
            assert(out@.skip(base.len() as int) =~= Seq::<AsmLine>::empty());
            assert(out@.take(base.len() as int) =~= base);
            match spec_gen_elsifs(full, last_case as int, vars1) {
                Ok(l2) => {
                    assert(out@.skip(base.len() as int) + l2 =~= l2);
                },
                Err(_) => {},
            }
        }
        let mut i: usize = 0;
        while i < eifs.len()
            invariant
                i <= eifs@.len(),
                full == seq_tree_view(eifs@),
                full.len() == eifs@.len(),
                forall|k: int| 0 <= k < eifs@.len() ==> full[k] == tree_view(eifs@[k]),
                self.tree == tree1,
                self.scopes@ == scopes1,
                self.vars_v() == vars1,
                base.len() <= out@.len(),
                out@.take(base.len() as int) == base,
                match spec_gen_elsifs(full.skip(i as int), last_case as int, vars1) {
                    Ok(l2) => spec_gen_elsifs(full, last_case as int, vars1) == Ok::<
                        Seq<AsmLine>,
                        GenError,
                    >(out@.skip(base.len() as int) + l2),
                    Err(e) => spec_gen_elsifs(full, last_case as int, vars1) == Err::<
                        Seq<AsmLine>,
                        GenError,
                    >(e),
                },
            decreases eifs@.len() - i,
        {
            let ghost prev_out = out@;
            let res = self.gen_elsif_stmt(&eifs[i], last_case, out);
            proof {
                assert(full.skip(i as int)[0] == tree_view(eifs@[i as int]));
            }
            match res {
                Ok(_) => {},
                Err(e) => {
                    return Err(e);
                },
            }
            proof {
                let s_i = full.skip(i as int);
                let delta = out@.skip(prev_out.len() as int);
                assert(prev_out + delta =~= out@);
                assert(out@.take(base.len() as int) =~= base);
                assert(out@.skip(base.len() as int) =~= prev_out.skip(base.len() as int) + delta);
                assert(s_i.drop_first() =~= full.skip(i + 1));
                let er = spec_gen_elsif_stmt(s_i[0], last_case as int, vars1);
                assert(er matches Ok(l1) && l1 =~= delta);
                match spec_gen_elsifs(full.skip(i + 1), last_case as int, vars1) {
                    Ok(l2) => {
                        assert(spec_gen_elsifs(s_i, last_case as int, vars1) == Ok::<
                            Seq<AsmLine>,
                            GenError,
                        >(delta + l2));
                        assert(prev_out.skip(base.len() as int) + (delta + l2) =~= (prev_out.skip(
                            base.len() as int,
                        ) + delta) + l2);
                    },
                    Err(e) => {
                        assert(spec_gen_elsifs(s_i, last_case as int, vars1) == Err::<
                            Seq<AsmLine>,
                            GenError,
                        >(e));
                    },
                }
            }
            i = i + 1;
        }
        proof {
            assert(full.skip(eifs@.len() as int) =~= Seq::<TreeV>::empty());
            match spec_gen_elsifs(full.skip(eifs@.len() as int), last_case as int, vars1) {
                Ok(l2) => {
                    assert(l2 == Seq::<AsmLine>::empty());
                    assert(out@.skip(base.len() as int) + l2 =~= out@.skip(base.len() as int));
                },
                Err(_) => {},
            }
        }
        Ok(())
    }

    /// Emit the syscall arguments from position one on, each into its
    /// fixed argument register.
    #[verifier::rlimit(100)]
    #[verifier::loop_isolation(false)]
    fn gen_syscall_args(&self, args: &Vec<Tree>, out: &mut Vec<AsmLine>) -> (r: Result<
        (),
        GenError,
    >)
        ensures
            match r {
                Ok(_) => spec_gen_syscall_args(seq_tree_view(args@), 1, self.vars_v()) matches Ok(l)
                    && final(out)@ == old(out)@ + l,
                Err(e) => spec_gen_syscall_args(seq_tree_view(args@), 1, self.vars_v()) == Err::<
                    Seq<AsmLine>,
                    GenError,
                >(e),
            },
    {
        let ghost full = seq_tree_view(args@);
        let ghost vars1 = self.vars_v();
        let ghost base = out@;
        proof {
            lemma_seq_tree_view_len(args@);
            assert(out@.skip(base.len() as int) =~= Seq::<AsmLine>::empty());
            assert(out@.take(base.len() as int) =~= base);
            match spec_gen_syscall_args(full, 1, vars1) {
                Ok(l2) => {
                    assert(out@.skip(base.len() as int) + l2 =~= l2);
                },
                Err(_) => {},
            }
        }
        let mut i: usize = 1;
        while i < args.len()
            invariant
                1 <= i,
                i <= args@.len() || i == 1,
                full == seq_tree_view(args@),
                full.len() == args@.len(),
                forall|k: int| 0 <= k < args@.len() ==> full[k] == tree_view(args@[k]),
                base.len() <= out@.len(),
                out@.take(base.len() as int) == base,
                vars1 == self.vars_v(),
                match spec_gen_syscall_args(full, i as int, vars1) {
                    Ok(l2) => spec_gen_syscall_args(full, 1, vars1) == Ok::<
                        Seq<AsmLine>,
                        GenError,
                    >(out@.skip(base.len() as int) + l2),
                    Err(e) => spec_gen_syscall_args(full, 1, vars1) == Err::<
                        Seq<AsmLine>,
                        GenError,
                    >(e),
                },
            decreases args@.len() - i,
        {
            let ghost prev_out = out@;
            let rg = syscall_reg_exec(i - 1);
            let res = self.gen_expr(&args[i], rg, out);
            match res {
                Ok(_) => {},
                Err(e) => {
                    return Err(e);
                },
            }
            proof {
                let delta = out@.skip(prev_out.len() as int);
                assert(prev_out + delta =~= out@);
                assert(out@.take(base.len() as int) =~= base);
                assert(out@.skip(base.len() as int) =~= prev_out.skip(base.len() as int) + delta);
                let er = spec_gen_expr(full[i as int], syscall_reg(i - 1), vars1);
                assert(er matches Ok(l1) && l1 =~= delta);
                match spec_gen_syscall_args(full, i + 1, vars1) {
                    Ok(l2) => {
                        assert(spec_gen_syscall_args(full, i as int, vars1) == Ok::<
                            Seq<AsmLine>,
                            GenError,
                        >(delta + l2));
                        assert(prev_out.skip(base.len() as int) + (delta + l2) =~= (prev_out.skip(
                            base.len() as int,
                        ) + delta) + l2);
                    },
                    Err(e) => {
                        assert(spec_gen_syscall_args(full, i as int, vars1) == Err::<
                            Seq<AsmLine>,
                            GenError,
                        >(e));
                    },
                }
            }
            i = i + 1;
        }
        proof {
            assert(spec_gen_syscall_args(full, args@.len() as int, vars1) == Ok::<
                Seq<AsmLine>,
                GenError,
            >(Seq::empty()));
            assert(out@.skip(base.len() as int) + Seq::<AsmLine>::empty() =~= out@.skip(
                base.len() as int,
            ));
        }
        Ok(())
    }

    /// The `els` entry label, derived from the chain shape.
    fn els_entry_exec(eifs: &Vec<Tree>, next_case: usize) -> (r: usize)
        ensures
            r as int == els_entry(seq_tree_view(eifs@), next_case as int),
    {
        proof {
            lemma_seq_tree_view_len(eifs@);
        }
        if eifs.len() == 0 {
            next_case
        } else {
            proof {
                assert(seq_tree_view(eifs@).last() == tree_view(eifs@[eifs@.len() - 1]));
            }
            match &eifs[eifs.len() - 1] {
                Tree::ElsIf { next_case: x, .. } => *x,
                _ => next_case,
            }
        }
    }

    /// Emit an `if` with its `elsif`/`els` chain.  With no chain, the
    /// false-target label closes the body; with one, every branch jumps to
    /// the join label, each `elsif` is emitted under its entry label, and
    /// the `els` body is emitted under the preceding branch's false-target
    /// before the join label closes the construct.
    #[verifier::rlimit(100)]
    fn gen_if_stmt(&mut self, tree: &Tree, out: &mut Vec<AsmLine>) -> (r: Result<(), GenError>)
        requires
            *tree is If,
        ensures
            final(self).tree == old(self).tree,
            match r {
                Ok(_) => spec_gen_stmt(tree_view(*tree), old(self).vars_v()) matches Ok((l, v2))
                    && final(out)@ == old(out)@ + l && final(self).vars_v() == v2 && final(self).scopes@ == old(self).scopes@,
                Err(e) => spec_gen_stmt(tree_view(*tree), old(self).vars_v()) == Err::<
                    (Seq<AsmLine>, Seq<VarV>),
                    GenError,
                >(e),
            },
        decreases *tree, 5int,
    {
        match tree {
            Tree::If { expr, body, last_case, next_case, els, els_ifs } => {
                let ghost base = out@;
                match self.gen_if_cmp(expr, *next_case, out) {
                    Ok(_) => (),
                    Err(e) => {
                        return Err(e);
                    },
                }
                match self.create_scope(body, out) {
                    Ok(_) => (),
                    Err(e) => {
                        return Err(e);
                    },
                }
                if *next_case == *last_case {
                    out.push(AsmLine::Label(*next_case));
                    proof {
                        let res = spec_gen_stmt(tree_view(*tree), old(self).vars_v());
                        assert(res matches Ok((lines, v2)) && out@ =~= base + lines);
                    }
                    return Ok(());
                }
                out.push(AsmLine::Jmp(*last_case));
                let ghost eifs_full = seq_tree_view(els_ifs@);
                match self.gen_elsifs(els_ifs, *last_case, out) {
                    Ok(_) => (),
                    Err(e) => {
                        return Err(e);
                    },
                }
                match els {
                    Some(els_body) => {
                        let entry: usize = Self::els_entry_exec(els_ifs, *next_case);
                        out.push(AsmLine::Label(entry));
                        match self.create_scope(els_body, out) {
                            Ok(_) => (),
                            Err(e) => {
                                return Err(e);
                            },
                        }
                        out.push(AsmLine::Label(*last_case));
                        proof {
                            let res = spec_gen_stmt(tree_view(*tree), old(self).vars_v());
                            assert(res matches Ok((lines, v2)) && out@ =~= base + lines);
                        }
                        Ok(())
                    },
                    None => {
                        proof {
                            let res = spec_gen_stmt(tree_view(*tree), old(self).vars_v());
                            assert(res matches Ok((lines, v2)) && out@ =~= base + lines);
                        }
                        Ok(())
                    },
                }
            },
            _ => {
                proof {
                    assert(false);
                }
                Err(GenError::ExpectedElsIf)
            },
        }
    }

    /// Emit a while loop: an unconditional jump to the bottom test, the
    /// body under its start label, then the test jumping back to the start
    /// while the condition holds.
    #[verifier::rlimit(100)]
    fn gen_while_stmt(&mut self, tree: &Tree, out: &mut Vec<AsmLine>) -> (r: Result<(), GenError>)
        requires
            *tree is While,
        ensures
            final(self).tree == old(self).tree,
            match r {
                Ok(_) => spec_gen_stmt(tree_view(*tree), old(self).vars_v()) matches Ok((l, v2))
                    && final(out)@ == old(out)@ + l && final(self).vars_v() == v2 && final(self).scopes@ == old(self).scopes@,
                Err(e) => spec_gen_stmt(tree_view(*tree), old(self).vars_v()) == Err::<
                    (Seq<AsmLine>, Seq<VarV>),
                    GenError,
                >(e),
            },
        decreases *tree, 5int,
    {
        match tree {
            Tree::While { expr, start, body, end } => {
                let ghost base = out@;
                out.push(AsmLine::Jmp(*end));
                out.push(AsmLine::Label(*start));
                match self.create_scope(body, out) {
                    Ok(_) => (),
                    Err(e) => {
                        return Err(e);
                    },
                }
                out.push(AsmLine::Label(*end));
                match self.gen_cmp_exp(expr, out) {
                    Ok(_) => (),
                    Err(e) => {
                        return Err(e);
                    },
                }
                out.push(AsmLine::TestAl1);
                out.push(AsmLine::Jnz(*start));
                proof {
                    let res = spec_gen_stmt(tree_view(*tree), old(self).vars_v());
                    assert(res matches Ok((lines, v2)) && out@ =~= base + lines);
                }
                Ok(())
            },
            _ => {
                proof {
                    assert(false);
                }
                Err(GenError::ExpectedCmpOp)
            },
        }
    }

    /// Emit a raw syscall: arguments one onward into the fixed argument
    /// registers in positional order, then the syscall number into the
    /// accumulator last, so no argument move clobbers it.
    #[verifier::rlimit(100)]
    fn gen_syscall_stmt(&mut self, tree: &Tree, out: &mut Vec<AsmLine>) -> (r: Result<
        (),
        GenError,
    >)
        requires
            *tree is SysCall,
        ensures
            final(self).tree == old(self).tree,
            match r {
                Ok(_) => spec_gen_stmt(tree_view(*tree), old(self).vars_v()) matches Ok((l, v2))
                    && final(out)@ == old(out)@ + l && final(self).vars_v() == v2 && final(self).scopes@ == old(self).scopes@,
                Err(e) => spec_gen_stmt(tree_view(*tree), old(self).vars_v()) == Err::<
                    (Seq<AsmLine>, Seq<VarV>),
                    GenError,
                >(e),
            },
        decreases *tree, 5int,
    {
        match tree {
            Tree::SysCall(args) => {
                proof {
                    lemma_seq_tree_view_len(args@);
                }
                if args.len() == 0 || args.len() > 7 {
                    return Err(GenError::SysCallArity);
                }
                let ghost base = out@;
                let ghost args_full = seq_tree_view(args@);
                proof {
                    lemma_seq_tree_view_len(args@);
                }
                match self.gen_syscall_args(args, out) {
                    Ok(_) => (),
                    Err(e) => {
                        return Err(e);
                    },
                }
                match self.gen_expr(&args[0], Reg::Rax, out) {
                    Ok(_) => (),
                    Err(e) => {
                        return Err(e);
                    },
                }
                out.push(AsmLine::Syscall);
                proof {
                    let res = spec_gen_stmt(tree_view(*tree), old(self).vars_v());
                    assert(res matches Ok((lines, v2)) && out@ =~= base + lines);
                }
                Ok(())
            },
            _ => {
                proof {
                    assert(false);
                }
                Err(GenError::SysCallArity)
            },
        }
    }

    /// Emit one statement; a declaration extends the binding table, every
    /// other statement leaves it as it was.  Expression trees in statement
    /// position emit nothing.
    #[verifier::rlimit(100)]
    fn gen_linux_64_program(&mut self, tree: &Tree, out: &mut Vec<AsmLine>) -> (r: Result<
        (),
        GenError,
    >)
        ensures
            final(self).tree == old(self).tree,
            match r {
                Ok(_) => spec_gen_stmt(tree_view(*tree), old(self).vars_v()) matches Ok((l, v2))
                    && final(out)@ == old(out)@ + l && final(self).vars_v() == v2 && final(self).scopes@ == old(self).scopes@,
                Err(e) => spec_gen_stmt(tree_view(*tree), old(self).vars_v()) == Err::<
                    (Seq<AsmLine>, Seq<VarV>),
                    GenError,
                >(e),
            },
        decreases *tree, 6int,
    {
        match tree {
            Tree::Let(ident, expr) => {
                match self.find_var(ident) {
                    Some(_) => {
                        return Err(GenError::AlreadyDeclared);
                    },
                    None => {},
                }
                let slot = self.vars.len();
                let ghost vars0 = self.vars_v();
                self.vars.push(Var::new(ident.clone(), slot));
                proof {
                    assert(self.vars_v() =~= vars0.push(
                        VarV { name: ident@, stack_loc: slot as int },
                    ));
                }
                match self.handle_vars(ident, expr, out) {
                    Ok(_) => Ok(()),
                    Err(e) => Err(e),
                }
            },
            Tree::Assign(ident, expr) => match self.handle_vars(ident, expr, out) {
                Ok(_) => Ok(()),
                Err(e) => Err(e),
            },
            Tree::Inc(name) => match self.find_var(name) {
                Some(slot) => {
                    out.push(AsmLine::IncVar(slot));
                    proof {
                        assert(out@ =~= old(out)@ + seq![AsmLine::IncVar(slot)]);
                    }
                    Ok(())
                },
                None => Err(GenError::UndeclaredVariable),
            },
            Tree::Dec(name) => match self.find_var(name) {
                Some(slot) => {
                    out.push(AsmLine::DecVar(slot));
                    proof {
                        assert(out@ =~= old(out)@ + seq![AsmLine::DecVar(slot)]);
                    }
                    Ok(())
                },
                None => Err(GenError::UndeclaredVariable),
            },
            Tree::If { .. } => self.gen_if_stmt(tree, out),
            Tree::While { .. } => self.gen_while_stmt(tree, out),
            Tree::SysCall(_) => self.gen_syscall_stmt(tree, out),
            Tree::Exit(expr) => {
                let ghost base = out@;
                match self.gen_expr(expr, Reg::Rax, out) {
                    Ok(_) => (),
                    Err(e) => {
                        return Err(e);
                    },
                }
                self.push(Reg::Rax, out);
                out.push(AsmLine::MovImm(Reg::Rax, 60));
                self.pop(Reg::Rdi, out);
                out.push(AsmLine::Syscall);
                proof {
                    let res = spec_gen_stmt(tree_view(*tree), old(self).vars_v());
                    assert(res matches Ok((lines, v2)) && out@ =~= base + lines);
                }
                Ok(())
            },
            _ => {
                proof {
                    assert(out@ =~= old(out)@ + Seq::<AsmLine>::empty());
                }
                Ok(())
            },
        }
    }

    /// Generate the whole program as its line sequence, starting from an
    /// empty binding table and scope stack.
    #[verifier::rlimit(100)]
    #[verifier::loop_isolation(false)]
    pub fn generate_lines(&mut self) -> (r: Result<Vec<AsmLine>, GenError>)
        ensures
            final(self).trees() == old(self).trees(),
            match r {
                Ok(lines) => spec_gen_program(old(self).trees()) == Ok::<Seq<AsmLine>, GenError>(
                    lines@,
                ),
                Err(e) => spec_gen_program(old(self).trees()) == Err::<Seq<AsmLine>, GenError>(e),
            },
    {
        self.vars = Vec::new();
        self.scopes = Vec::new();
        let trees = clone_trees(&self.tree);
        let ghost full = seq_tree_view(trees@);
        let mut out: Vec<AsmLine> = Vec::new();
        proof {
            lemma_seq_tree_view_len(trees@);
            assert(vars_view(self.vars@) =~= Seq::<VarV>::empty());
            assert(full.skip(0) =~= full);
            assert(out@ =~= Seq::<AsmLine>::empty());
            match spec_gen_seq(full, Seq::<VarV>::empty()) {
                Ok((l2, vf)) => {
                    assert(out@ + l2 =~= l2);
                },
                Err(_) => {},
            }
        }
        let ghost tree1 = self.tree;
        let mut i: usize = 0;
        while i < trees.len()
            invariant
                i <= trees@.len(),
                full == seq_tree_view(trees@),
                full.len() == trees@.len(),
                forall|k: int| 0 <= k < trees@.len() ==> full[k] == tree_view(trees@[k]),
                self.tree == tree1,
                match spec_gen_seq(full.skip(i as int), self.vars_v()) {
                    Ok((l2, vf)) => spec_gen_seq(full, Seq::<VarV>::empty()) == Ok::<
                        (Seq<AsmLine>, Seq<VarV>),
                        GenError,
                    >((out@ + l2, vf)),
                    Err(e) => spec_gen_seq(full, Seq::<VarV>::empty()) == Err::<
                        (Seq<AsmLine>, Seq<VarV>),
                        GenError,
                    >(e),
                },
            decreases trees@.len() - i,
        {
            let ghost prev_out = out@;
            let ghost prev_vars = self.vars_v();
            proof {
                assert(decreases_to!(trees@ => trees@[i as int]));
            }
            let res = self.gen_linux_64_program(&trees[i], &mut out);
            proof {
                assert(full.skip(i as int)[0] == tree_view(trees@[i as int]));
            }
            match res {
                Ok(_) => {},
                Err(e) => {
                    return Err(e);
                },
            }
            proof {
                let s_i = full.skip(i as int);
                let delta = out@.skip(prev_out.len() as int);
                assert(prev_out + delta =~= out@);
                assert(s_i.drop_first() =~= full.skip(i + 1));
                let stmt_res = spec_gen_stmt(s_i[0], prev_vars);
                assert(stmt_res matches Ok((l1, v1)) && l1 =~= delta && v1 == self.vars_v());
                match spec_gen_seq(full.skip(i + 1), self.vars_v()) {
                    Ok((l2, vf)) => {
                        assert(spec_gen_seq(s_i, prev_vars) == Ok::<
                            (Seq<AsmLine>, Seq<VarV>),
                            GenError,
                        >((delta + l2, vf)));
                        assert(prev_out + (delta + l2) =~= (prev_out + delta) + l2);
                    },
                    Err(e) => {
                        assert(spec_gen_seq(s_i, prev_vars) == Err::<
                            (Seq<AsmLine>, Seq<VarV>),
                            GenError,
                        >(e));
                    },
                }
            }
            i = i + 1;
        }
        proof {
            assert(full.skip(trees@.len() as int) =~= Seq::<TreeV>::empty());
            match spec_gen_seq(full.skip(trees@.len() as int), self.vars_v()) {
                Ok((l2, vf)) => {
                    assert(l2 == Seq::<AsmLine>::empty());
                    assert(out@ + l2 =~= out@);
                },
                Err(_) => {},
            }
        }
        Ok(out)
    }

    /// Generate the whole program as assembly text: the fixed header and
    /// entry point, then the lowered lines of every statement in order.
    pub fn generate_linux_64(&mut self) -> (r: Result<String, GenError>)
        ensures
            final(self).trees() == old(self).trees(),
            match r {
                Ok(s) => spec_gen_program(old(self).trees()) matches Ok(l) && s@ == render_program(
                    l,
                ),
                Err(e) => spec_gen_program(old(self).trees()) == Err::<Seq<AsmLine>, GenError>(e),
            },
    {
        match self.generate_lines() {
            Ok(lines) => Ok(render_program_exec(&lines)),
            Err(e) => Err(e),
        }
    }
}

} // verus!
