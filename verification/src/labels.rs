//! The label discipline: every jump label defined in generated code is
//! defined exactly once, and every jump lands on a defined label.
//!
//! The parser allocates label numbers from a counter that only grows, so
//! the labels of a construct live in the half-open counter interval of its
//! parse, nested constructs get disjoint sub-intervals, and the generator
//! emits label definitions in strictly increasing order of their numbers.
use vstd::prelude::*;
use crate::tokenize::TokenV;
use crate::parser::TreeV;
use crate::parser::ParseError;
use crate::parser::spec_parse_factor;
use crate::parser::spec_parse_term;
use crate::parser::spec_parse_term_rest;
use crate::parser::spec_parse_expression;
use crate::parser::spec_parse_expr_rest;
use crate::parser::spec_parse_paren_expr;
use crate::parser::spec_parse_block;
use crate::parser::spec_parse_block_items;
use crate::parser::spec_parse_chain;
use crate::parser::spec_parse_args;
use crate::parser::spec_parse_items;
use crate::parser::spec_parse_program;
use crate::parser::combine_expr_op;
use crate::parser::is_expr_op;
use crate::parser::sat_inc;
use crate::emit::AsmLine;
use crate::emit::Reg;
use crate::generator::VarV;
use crate::generator::GenError;
use crate::generator::els_entry;
use crate::generator::spec_gen_expr;
use crate::generator::spec_gen_bin_exp;
use crate::generator::spec_gen_bin_op;
use crate::generator::spec_gen_cmp_exp;
use crate::generator::spec_gen_cmp_op;
use crate::generator::spec_gen_if_cmp;
use crate::generator::spec_handle_vars;
use crate::generator::spec_gen_stmt;
use crate::generator::spec_gen_seq;
use crate::generator::spec_gen_scope;
use crate::generator::spec_gen_elsif_stmt;
use crate::generator::spec_gen_elsifs;
use crate::generator::spec_gen_syscall_args;
use crate::generator::spec_gen_program;

verus! {

/// The labels defined by a line sequence, in order of definition.
pub open spec fn def_seq(lines: Seq<AsmLine>) -> Seq<int>
    decreases lines.len(),
{
    if lines.len() == 0 {
        Seq::empty()
    } else {
        let rest = def_seq(lines.drop_first());
        match lines[0] {
            AsmLine::Label(n) => seq![n as int] + rest,
            _ => rest,
        }
    }
}

/// Whether a line is a jump.
pub open spec fn is_jump(l: AsmLine) -> bool {
    l is Jmp || l is Jz || l is Jnz
}

/// The label a jump goes to.
pub open spec fn jump_target(l: AsmLine) -> int {
    match l {
        AsmLine::Jmp(n) => n as int,
        AsmLine::Jz(n) => n as int,
        AsmLine::Jnz(n) => n as int,
        _ => 0,
    }
}

/// Strictly increasing label numbers: no duplicates.
pub open spec fn strictly_inc(s: Seq<int>) -> bool {
    forall|i: int, j: int| 0 <= i < j < s.len() ==> s[i] < s[j]
}

/// All numbers in the half-open interval `(lo, hi]`.
pub open spec fn in_range(s: Seq<int>, lo: int, hi: int) -> bool {
    forall|i: int| 0 <= i < s.len() ==> lo < #[trigger] s[i] <= hi
}

/// Every jump in `lines` goes to a label in `d`.
pub open spec fn targets_in(lines: Seq<AsmLine>, d: Seq<int>) -> bool {
    forall|i: int|
        0 <= i < lines.len() && is_jump(#[trigger] lines[i]) ==> d.contains(jump_target(lines[i]))
}

/// Lines with neither label definitions nor jumps.
pub open spec fn clean(lines: Seq<AsmLine>) -> bool {
    forall|i: int| 0 <= i < lines.len() ==> !(#[trigger] lines[i] is Label) && !is_jump(lines[i])
}

proof fn lemma_def_seq_concat(a: Seq<AsmLine>, b: Seq<AsmLine>)
    ensures
        def_seq(a + b) == def_seq(a) + def_seq(b),
    decreases a.len(),
{
    if a.len() == 0 {
        assert(a + b =~= b);
        assert(def_seq(a) + def_seq(b) =~= def_seq(b));
    } else {
        assert((a + b).drop_first() =~= a.drop_first() + b);
        lemma_def_seq_concat(a.drop_first(), b);
        assert((a + b)[0] == a[0]);
        match a[0] {
            AsmLine::Label(n) => {
                assert(seq![n as int] + (def_seq(a.drop_first()) + def_seq(b)) =~= (seq![n as int]
                    + def_seq(a.drop_first())) + def_seq(b));
            },
            _ => {},
        }
    }
}

proof fn lemma_def_seq_no_labels(lines: Seq<AsmLine>)
    requires
        forall|i: int| 0 <= i < lines.len() ==> !(#[trigger] lines[i] is Label),
    ensures
        def_seq(lines) == Seq::<int>::empty(),
    decreases lines.len(),
{
    if lines.len() > 0 {
        assert(forall|i: int|
            0 <= i < lines.drop_first().len() ==> !(#[trigger] lines.drop_first()[i] is Label));
        lemma_def_seq_no_labels(lines.drop_first());
    }
}

proof fn lemma_def_seq_single_label(lines: Seq<AsmLine>, n: int)
    requires
        forall|i: int| 0 <= i < lines.len() ==> !(#[trigger] lines[i] is Label),
    ensures
        def_seq(lines + seq![AsmLine::Label(n as usize)]) == seq![n as usize as int],
{
    lemma_def_seq_concat(lines, seq![AsmLine::Label(n as usize)]);
    lemma_def_seq_no_labels(lines);
    let single = seq![AsmLine::Label(n as usize)];
    assert(single.drop_first() =~= Seq::<AsmLine>::empty());
    assert(def_seq(Seq::<AsmLine>::empty()) == Seq::<int>::empty());
    assert(def_seq(single) == seq![n as usize as int] + Seq::<int>::empty());
    assert(seq![n as usize as int] + Seq::<int>::empty() =~= seq![n as usize as int]);
    assert(def_seq(lines) + def_seq(single) =~= seq![n as usize as int]);
}

proof fn lemma_contains_concat(a: Seq<int>, b: Seq<int>, x: int)
    ensures
        a.contains(x) ==> (a + b).contains(x),
        b.contains(x) ==> (a + b).contains(x),
{
    if a.contains(x) {
        let i = choose|i: int| 0 <= i < a.len() && a[i] == x;
        assert((a + b)[i] == x);
    }
    if b.contains(x) {
        let i = choose|i: int| 0 <= i < b.len() && b[i] == x;
        assert((a + b)[a.len() + i] == x);
    }
}

proof fn lemma_clean_concat(a: Seq<AsmLine>, b: Seq<AsmLine>)
    requires
        clean(a),
        clean(b),
    ensures
        clean(a + b),
{
    assert forall|i: int| 0 <= i < (a + b).len() implies !(#[trigger] (a + b)[i] is Label) && !is_jump(
        (a + b)[i],
    ) by {
        if i < a.len() {
            assert((a + b)[i] == a[i]);
        } else {
            assert((a + b)[i] == b[i - a.len()]);
        }
    }
}

/// The topmost label a statement itself defines: the join label of a
/// conditional, the bottom-test label of a loop, and `lo` itself for a
/// statement that defines no label.
pub open spec fn stmt_top(t: TreeV, lo: int) -> int {
    match t {
        TreeV::If { last_case, .. } => last_case,
        TreeV::While { end, .. } => end,
        _ => lo,
    }
}

/// The topmost label of a statement sequence: the fold of `stmt_top`.
pub open spec fn seq_top(ts: Seq<TreeV>, lo: int) -> int
    decreases ts,
{
    if ts.len() == 0 {
        lo
    } else {
        seq_top(ts.drop_first(), stmt_top(ts[0], lo))
    }
}

/// The label interval of a statement: all labels it defines lie in
/// `(lo, hi]`, its bodies own consecutive sub-intervals below its own
/// labels, and an `elsif`/`els` chain is entered at the preceding
/// false-target and closed by the join label.
pub open spec fn stmt_wf(t: TreeV, lo: int, hi: int) -> bool
    decreases t, 2int,
{
    lo <= hi && match t {
        TreeV::If { expr, body, last_case, next_case, els, els_ifs } => {
            &&& lo < next_case <= last_case <= hi
            &&& lo <= seq_top(body, lo) < next_case
            &&& seq_wf(body, lo, seq_top(body, lo))
            &&& (next_case == last_case || {
                &&& chain_ok(els_ifs, next_case, last_case)
                &&& match els {
                    Some(b) => {
                        let entry = chain_end(els_ifs, next_case);
                        &&& entry < last_case
                        &&& entry <= seq_top(b, entry) < last_case
                        &&& seq_wf(b, entry, seq_top(b, entry))
                    },
                    None => chain_end(els_ifs, next_case) == last_case,
                }
            })
        },
        TreeV::While { expr, start, body, end } => {
            &&& lo < start < end <= hi
            &&& start <= seq_top(body, start) < end
            &&& seq_wf(body, start, seq_top(body, start))
        },
        _ => true,
    }
}

/// Consecutive label intervals for the statements of a sequence.
pub open spec fn seq_wf(ts: Seq<TreeV>, lo: int, hi: int) -> bool
    decreases ts, 3int,
{
    if ts.len() == 0 {
        lo <= hi
    } else {
        let m = stmt_top(ts[0], lo);
        &&& lo <= m <= hi
        &&& stmt_wf(ts[0], lo, m)
        &&& seq_wf(ts.drop_first(), m, hi)
    }
}

/// Chain shape: each `elsif` enters at the running false-target and owns a
/// fresh one above its body's labels.
pub open spec fn chain_ok(eifs: Seq<TreeV>, cur: int, last: int) -> bool
    decreases eifs, 3int,
{
    if eifs.len() == 0 {
        true
    } else {
        match eifs[0] {
            TreeV::ElsIf { curr_case, expr, body, next_case } => {
                &&& curr_case == cur
                &&& cur < next_case <= last
                &&& cur <= seq_top(body, cur) < next_case
                &&& seq_wf(body, cur, seq_top(body, cur))
                &&& chain_ok(eifs.drop_first(), next_case, last)
            },
            _ => false,
        }
    }
}

/// The false-target the chain ends with: the last clause's, or the entry
/// value for an empty chain.
pub open spec fn chain_end(eifs: Seq<TreeV>, cur: int) -> int
    decreases eifs,
{
    if eifs.len() == 0 {
        cur
    } else {
        match eifs[0] {
            TreeV::ElsIf { next_case, .. } => chain_end(eifs.drop_first(), next_case),
            _ => cur,
        }
    }
}

/// The chain's final false-target is the one the generator derives for
/// the `els` entry.
proof fn lemma_chain_end_is_els_entry(eifs: Seq<TreeV>, cur: int, last: int)
    requires
        chain_ok(eifs, cur, last),
    ensures
        chain_end(eifs, cur) == els_entry(eifs, cur),
        eifs.len() > 0 ==> eifs.last() is ElsIf,
    decreases eifs.len(),
{
    if eifs.len() > 0 {
        match eifs[0] {
            TreeV::ElsIf { next_case, .. } => {
                lemma_chain_end_is_els_entry(eifs.drop_first(), next_case, last);
                assert(chain_end(eifs, cur) == chain_end(eifs.drop_first(), next_case));
                if eifs.len() == 1 {
                    assert(eifs.drop_first().len() == 0);
                    assert(chain_end(eifs.drop_first(), next_case) == next_case);
                    assert(eifs.last() == eifs[0]);
                    assert(els_entry(eifs, cur) == next_case);
                } else {
                    assert(eifs.drop_first().last() == eifs.last());
                    assert(eifs.last() is ElsIf);
                    assert(els_entry(eifs, cur) == els_entry(eifs.drop_first(), next_case));
                }
            },
            _ => {},
        }
    }
}

/// Statement tops never move down when the entry point moves down.
proof fn lemma_seq_top_mono_general(ts: Seq<TreeV>, lo2: int, lo: int)
    requires
        lo2 <= lo,
    ensures
        seq_top(ts, lo2) <= seq_top(ts, lo),
    decreases ts,
{
    if ts.len() > 0 {
        lemma_seq_top_mono_general(ts.drop_first(), stmt_top(ts[0], lo2), stmt_top(ts[0], lo));
    }
}

/// Under well-formedness the fold of tops never moves below its entry.
proof fn lemma_seq_top_lower(ts: Seq<TreeV>, lo: int, hi: int)
    requires
        seq_wf(ts, lo, hi),
    ensures
        lo <= seq_top(ts, lo) <= hi,
    decreases ts,
{
    if ts.len() > 0 {
        lemma_seq_top_lower(ts.drop_first(), stmt_top(ts[0], lo), hi);
    }
}

proof fn lemma_stmt_wf_mono(t: TreeV, lo: int, hi: int, lo2: int, hi2: int)
    requires
        stmt_wf(t, lo, hi),
        lo2 <= lo,
        hi <= hi2,
    ensures
        stmt_wf(t, lo2, hi2),
    decreases t, 2int,
{
    match t {
        TreeV::If { expr, body, last_case, next_case, els, els_ifs } => {
            lemma_seq_wf_self_mono(body, lo, lo2);
            lemma_seq_top_mono_general(body, lo2, lo);
            lemma_seq_top_lower(body, lo2, seq_top(body, lo2));
        },
        TreeV::While { expr, start, body, end } => {
        },
        _ => {},
    }
}

proof fn lemma_seq_wf_mono(ts: Seq<TreeV>, lo: int, hi: int, lo2: int, hi2: int)
    requires
        seq_wf(ts, lo, hi),
        lo2 <= lo,
        hi <= hi2,
    ensures
        seq_wf(ts, lo2, hi2),
    decreases ts, 3int,
{
    if ts.len() == 0 {
    } else {
        let m = stmt_top(ts[0], lo);
        let m2 = stmt_top(ts[0], lo2);
        assert(m2 <= m);
        match ts[0] {
            TreeV::If { .. } => {
                assert(m2 == m);
                lemma_stmt_wf_mono(ts[0], lo, m, lo2, m2);
            },
            TreeV::While { .. } => {
                assert(m2 == m);
                lemma_stmt_wf_mono(ts[0], lo, m, lo2, m2);
            },
            _ => {
                assert(m2 == lo2);
                assert(stmt_wf(ts[0], lo2, m2));
            },
        }
        lemma_seq_wf_mono(ts.drop_first(), m, hi, m2, hi2);
    }
}

/// Weakening the entry point of a self-bounded sequence: the interval end
/// moves down with it.
proof fn lemma_seq_wf_self_mono(ts: Seq<TreeV>, lo: int, lo2: int)
    requires
        seq_wf(ts, lo, seq_top(ts, lo)),
        lo2 <= lo,
    ensures
        seq_wf(ts, lo2, seq_top(ts, lo2)),
    decreases ts, 3int,
{
    if ts.len() == 0 {
    } else {
        let m = stmt_top(ts[0], lo);
        let m2 = stmt_top(ts[0], lo2);
        assert(m2 <= m);
        assert(seq_top(ts, lo) == seq_top(ts.drop_first(), m));
        assert(seq_top(ts, lo2) == seq_top(ts.drop_first(), m2));
        match ts[0] {
            TreeV::If { .. } => {
                assert(m2 == m);
                lemma_stmt_wf_mono(ts[0], lo, m, lo2, m2);
            },
            TreeV::While { .. } => {
                assert(m2 == m);
                lemma_stmt_wf_mono(ts[0], lo, m, lo2, m2);
            },
            _ => {
                assert(m2 == lo2);
                assert(stmt_wf(ts[0], lo2, m2));
            },
        }
        lemma_seq_wf_self_mono(ts.drop_first(), m, m2);
        lemma_seq_top_lower(ts.drop_first(), m2, seq_top(ts.drop_first(), m2));
    }
}

proof fn lemma_expr_clean(t: TreeV, reg: Reg, vars: Seq<VarV>)
    ensures
        spec_gen_expr(t, reg, vars) matches Ok(l) ==> clean(l),
    decreases t, 2int,
{
    match t {
        TreeV::BinOp(_l, _op, _r) => {
            lemma_bin_exp_clean(t, reg, vars);
        },
        TreeV::CmpOp(_l, _op, _r) => {
            lemma_cmp_exp_clean(t, vars);
        },
        _ => {},
    }
}

proof fn lemma_bin_exp_clean(t: TreeV, reg: Reg, vars: Seq<VarV>)
    ensures
        spec_gen_bin_exp(t, reg, vars) matches Ok(l) ==> clean(l),
    decreases t, 1int,
{
    match t {
        TreeV::BinOp(_l, op, _r) => {
            match crate::generator::bin_kind(op) {
                Some(k) => {
                    lemma_bin_op_clean(t, k, reg, vars);
                },
                None => {},
            }
        },
        _ => {},
    }
}

proof fn lemma_bin_op_clean(t: TreeV, k: crate::generator::BinKind, reg: Reg, vars: Seq<VarV>)
    ensures
        spec_gen_bin_op(t, k, reg, vars) matches Ok(l) ==> clean(l),
    decreases t, 0int,
{
    match t {
        TreeV::BinOp(l, _op, r) => {
            lemma_expr_clean(*l, Reg::Rax, vars);
            lemma_expr_clean(*r, Reg::Rbx, vars);
            match (spec_gen_expr(*l, Reg::Rax, vars), spec_gen_expr(*r, Reg::Rbx, vars)) {
                (Ok(ll), Ok(rl)) => {
                    match spec_gen_bin_op(t, k, reg, vars) {
                        Ok(lines) => {
                            let cl = crate::generator::is_compound(*l);
                            let cr = crate::generator::is_compound(*r);
                            let spill = cl || cr;
                            let lreg = if spill {
                                Reg::Rcx
                            } else {
                                Reg::Rax
                            };
                            let rreg = if cl && cr {
                                Reg::Rax
                            } else {
                                Reg::Rbx
                            };
                            let mid: Seq<AsmLine> = if spill {
                                seq![AsmLine::MovReg(Reg::Rcx, Reg::Rax)]
                            } else {
                                Seq::empty()
                            };
                            let op_lines: Seq<AsmLine> = if k is Div {
                                (if lreg != Reg::Rax {
                                    seq![AsmLine::MovReg(Reg::Rax, lreg)]
                                } else {
                                    Seq::empty()
                                }) + (if rreg != Reg::Rbx {
                                    seq![AsmLine::MovReg(Reg::Rbx, rreg)]
                                } else {
                                    Seq::empty()
                                }) + seq![AsmLine::Xor(Reg::Rdx, Reg::Rdx), AsmLine::Div(Reg::Rbx)]
                            } else {
                                seq![crate::generator::bin_line(k, lreg, rreg)]
                            };
                            let fin_lreg = if k is Div {
                                Reg::Rax
                            } else {
                                lreg
                            };
                            let tail: Seq<AsmLine> = if fin_lreg != reg {
                                seq![AsmLine::MovReg(reg, fin_lreg)]
                            } else {
                                Seq::empty()
                            };
                            assert(lines == ll + mid + rl + op_lines + tail);
                            assert(clean(mid));
                            assert(clean(op_lines)) by {
                                assert forall|i: int|
                                    0 <= i < op_lines.len() implies !(#[trigger] op_lines[i]
                                    is Label) && !is_jump(op_lines[i]) by {}
                            }
                            assert(clean(tail));
                            lemma_clean_concat(ll, mid);
                            lemma_clean_concat(ll + mid, rl);
                            lemma_clean_concat(ll + mid + rl, op_lines);
                            lemma_clean_concat(ll + mid + rl + op_lines, tail);
                        },
                        Err(_) => {},
                    }
                },
                _ => {},
            }
        },
        _ => {},
    }
}

proof fn lemma_cmp_exp_clean(t: TreeV, vars: Seq<VarV>)
    ensures
        spec_gen_cmp_exp(t, vars) matches Ok(l) ==> clean(l),
    decreases t, 1int,
{
    match t {
        TreeV::CmpOp(_l, op, _r) => {
            match crate::generator::cmp_kind(op) {
                Some(k) => {
                    lemma_cmp_op_clean(t, k, vars);
                },
                None => {},
            }
        },
        _ => {},
    }
}

proof fn lemma_cmp_op_clean(t: TreeV, k: crate::emit::CmpKind, vars: Seq<VarV>)
    ensures
        spec_gen_cmp_op(t, k, vars) matches Ok(l) ==> clean(l),
    decreases t, 0int,
{
    match t {
        TreeV::CmpOp(l, _op, r) => {
            lemma_expr_clean(*l, Reg::Rax, vars);
            lemma_expr_clean(*r, Reg::Rbx, vars);
            match (spec_gen_expr(*l, Reg::Rax, vars), spec_gen_expr(*r, Reg::Rbx, vars)) {
                (Ok(ll), Ok(rl)) => {
                    match spec_gen_cmp_op(t, k, vars) {
                        Ok(lines) => {
                            let mid: Seq<AsmLine> = if crate::generator::is_compound(*r) {
                                seq![AsmLine::MovReg(Reg::Rcx, Reg::Rax)] + rl + seq![
                                    AsmLine::MovReg(Reg::Rax, Reg::Rcx),
                                ]
                            } else {
                                rl
                            };
                            assert(clean(seq![AsmLine::MovReg(Reg::Rcx, Reg::Rax)]));
                            assert(clean(seq![AsmLine::MovReg(Reg::Rax, Reg::Rcx)]));
                            if crate::generator::is_compound(*r) {
                                lemma_clean_concat(
                                    seq![AsmLine::MovReg(Reg::Rcx, Reg::Rax)],
                                    rl,
                                );
                                lemma_clean_concat(
                                    seq![AsmLine::MovReg(Reg::Rcx, Reg::Rax)] + rl,
                                    seq![AsmLine::MovReg(Reg::Rax, Reg::Rcx)],
                                );
                            }
                            assert(clean(mid));
                            let tail = seq![
                                AsmLine::CmpRaxRbx,
                                AsmLine::SetCmp(k),
                                AsmLine::MovzxRaxAl,
                            ];
                            assert(clean(tail));
                            lemma_clean_concat(ll, mid);
                            lemma_clean_concat(ll + mid, tail);
                            assert(lines == ll + mid + tail);
                        },
                        Err(_) => {},
                    }
                },
                _ => {},
            }
        },
        _ => {},
    }
}

proof fn lemma_handle_vars_clean(name: Seq<char>, e: TreeV, vars: Seq<VarV>)
    ensures
        spec_handle_vars(name, e, vars) matches Ok(l) ==> clean(l),
{
    lemma_expr_clean(e, Reg::Rax, vars);
    match e {
        TreeV::Number(_n) => {
        },
        _ => {
            match spec_gen_expr(e, Reg::Rax, vars) {
                Ok(el) => {
                    match crate::generator::spec_find_var(vars, name) {
                        Some(v) => {
                            lemma_clean_concat(
                                el,
                                seq![
                                    AsmLine::StoreVar(v.stack_loc as usize, Reg::Rax),
                                ],
                            );
                        },
                        None => {},
                    }
                },
                Err(_) => {},
            }
        },
    }
}

proof fn lemma_if_cmp_lines(cond: TreeV, target: int, vars: Seq<VarV>)
    requires
        0 <= target <= usize::MAX as int,
    ensures
        spec_gen_if_cmp(cond, target, vars) matches Ok(l) ==> (forall|i: int|
            0 <= i < l.len() ==> !(#[trigger] l[i] is Label)) && (forall|i: int|
            0 <= i < l.len() && is_jump(#[trigger] l[i]) ==> jump_target(l[i]) == target),
{
    lemma_cmp_exp_clean(cond, vars);
    match spec_gen_cmp_exp(cond, vars) {
        Ok(cl) => {
            let l = cl + seq![AsmLine::TestAl1, AsmLine::Jz(target as usize)];
            assert forall|i: int| 0 <= i < l.len() implies !(#[trigger] l[i] is Label) by {
                if i < cl.len() {
                    assert(l[i] == cl[i]);
                }
            }
            assert forall|i: int|
                0 <= i < l.len() && is_jump(#[trigger] l[i]) implies jump_target(l[i])
                == target by {
                if i < cl.len() {
                    assert(l[i] == cl[i]);
                }
            }
        },
        Err(_) => {},
    }
}

proof fn lemma_syscall_args_clean(args: Seq<TreeV>, i: int, vars: Seq<VarV>)
    ensures
        spec_gen_syscall_args(args, i, vars) matches Ok(l) ==> clean(l),
    decreases args.len() - i,
{
    if i < 1 || i >= args.len() {
    } else {
        lemma_expr_clean(args[i], crate::generator::syscall_reg(i - 1), vars);
        lemma_syscall_args_clean(args, i + 1, vars);
        match (spec_gen_expr(args[i], crate::generator::syscall_reg(i - 1), vars),
        spec_gen_syscall_args(args, i + 1, vars)) {
            (Ok(l1), Ok(l2)) => {
                lemma_clean_concat(l1, l2);
            },
            _ => {},
        }
    }
}

proof fn lemma_inc_join(a: Seq<int>, b: Seq<int>, lo: int, m: int, hi: int)
    requires
        strictly_inc(a),
        in_range(a, lo, m),
        strictly_inc(b),
        in_range(b, m, hi),
        lo <= m <= hi,
    ensures
        strictly_inc(a + b),
        in_range(a + b, lo, hi),
{
    assert forall|i: int, j: int| 0 <= i < j < (a + b).len() implies (a + b)[i] < (a + b)[j] by {
        if j < a.len() {
        } else if i >= a.len() {
            assert((a + b)[i] == b[i - a.len()]);
            assert((a + b)[j] == b[j - a.len()]);
        } else {
            assert((a + b)[i] == a[i]);
            assert((a + b)[j] == b[j - a.len()]);
        }
    }
    assert forall|i: int| 0 <= i < (a + b).len() implies lo < #[trigger] (a + b)[i] <= hi by {
        if i < a.len() {
            assert((a + b)[i] == a[i]);
        } else {
            assert((a + b)[i] == b[i - a.len()]);
        }
    }
}

proof fn lemma_targets_join(la: Seq<AsmLine>, lb: Seq<AsmLine>)
    requires
        targets_in(la, def_seq(la)),
        targets_in(lb, def_seq(lb)),
    ensures
        targets_in(la + lb, def_seq(la + lb)),
{
    lemma_def_seq_concat(la, lb);
    assert forall|i: int|
        0 <= i < (la + lb).len() && is_jump(#[trigger] (la + lb)[i]) implies def_seq(
        la + lb,
    ).contains(jump_target((la + lb)[i])) by {
        if i < la.len() {
            assert((la + lb)[i] == la[i]);
            lemma_contains_concat(def_seq(la), def_seq(lb), jump_target(la[i]));
        } else {
            assert((la + lb)[i] == lb[i - la.len()]);
            lemma_contains_concat(def_seq(la), def_seq(lb), jump_target(lb[i - la.len()]));
        }
    }
}

proof fn lemma_def_seq_label1(n: usize)
    ensures
        def_seq(seq![AsmLine::Label(n)]) == seq![n as int],
{
    assert(seq![AsmLine::Label(n)].drop_first() =~= Seq::<AsmLine>::empty());
    assert(def_seq(Seq::<AsmLine>::empty()) == Seq::<int>::empty());
    assert(def_seq(seq![AsmLine::Label(n)]) == seq![n as int] + Seq::<int>::empty());
    assert(seq![n as int] + Seq::<int>::empty() =~= seq![n as int]);
}

proof fn lemma_clean_block(l: Seq<AsmLine>, lo: int, hi: int)
    requires
        clean(l),
        lo <= hi,
    ensures
        strictly_inc(def_seq(l)),
        in_range(def_seq(l), lo, hi),
        targets_in(l, def_seq(l)),
{
    lemma_def_seq_no_labels(l);
}

proof fn lemma_targets_concat_same(a: Seq<AsmLine>, b: Seq<AsmLine>, d: Seq<int>)
    requires
        targets_in(a, d),
        targets_in(b, d),
    ensures
        targets_in(a + b, d),
{
    assert forall|i: int|
        0 <= i < (a + b).len() && is_jump(#[trigger] (a + b)[i]) implies d.contains(
        jump_target((a + b)[i]),
    ) by {
        if i < a.len() {
            assert((a + b)[i] == a[i]);
        } else {
            assert((a + b)[i] == b[i - a.len()]);
        }
    }
}

/// Every element of one piece of a concatenation is in the whole.
proof fn lemma_targets_lift(a: Seq<AsmLine>, da: Seq<int>, d: Seq<int>)
    requires
        targets_in(a, da),
        forall|x: int| da.contains(x) ==> d.contains(x),
    ensures
        targets_in(a, d),
{
}

proof fn lemma_contains_mid(pre: Seq<int>, mid: Seq<int>, post: Seq<int>, x: int)
    requires
        mid.contains(x),
    ensures
        (pre + mid + post).contains(x),
{
    lemma_contains_concat(pre, mid, x);
    lemma_contains_concat(pre + mid, post, x);
}

/// The chain's final false-target lies between its entry and the join.
proof fn lemma_chain_end_bounds(eifs: Seq<TreeV>, cur: int, last: int)
    requires
        chain_ok(eifs, cur, last),
        cur <= last,
    ensures
        cur <= chain_end(eifs, cur) <= last,
    decreases eifs,
{
    if eifs.len() > 0 {
        match eifs[0] {
            TreeV::ElsIf { next_case, .. } => {
                lemma_chain_end_bounds(eifs.drop_first(), next_case, last);
            },
            _ => {},
        }
    }
}

/// The labels the generated lines of a statement define are strictly
/// increasing, lie in the statement's interval, and every jump in them
/// lands on one of them.
proof fn lemma_stmt_lines(t: TreeV, vars: Seq<VarV>, lo: int, hi: int)
    requires
        stmt_wf(t, lo, hi),
        0 <= lo,
        hi <= usize::MAX as int,
    ensures
        spec_gen_stmt(t, vars) matches Ok((l, v2)) ==> strictly_inc(def_seq(l)) && in_range(
            def_seq(l),
            lo,
            hi,
        ) && targets_in(l, def_seq(l)),
    decreases t, 4int,
{
    match t {
        TreeV::Let(name, e) => {
            let nv = vars.push(VarV { name: name, stack_loc: vars.len() as int });
            lemma_handle_vars_clean(name, *e, nv);
            match spec_gen_stmt(t, vars) {
                Ok((l, _v2)) => {
                    lemma_clean_block(l, lo, hi);
                },
                Err(_) => {},
            }
        },
        TreeV::Assign(name, e) => {
            lemma_handle_vars_clean(name, *e, vars);
            match spec_gen_stmt(t, vars) {
                Ok((l, _v2)) => {
                    lemma_clean_block(l, lo, hi);
                },
                Err(_) => {},
            }
        },
        TreeV::Inc(_name) => {
            match spec_gen_stmt(t, vars) {
                Ok((l, _v2)) => {
                    lemma_clean_block(l, lo, hi);
                },
                Err(_) => {},
            }
        },
        TreeV::Dec(_name) => {
            match spec_gen_stmt(t, vars) {
                Ok((l, _v2)) => {
                    lemma_clean_block(l, lo, hi);
                },
                Err(_) => {},
            }
        },
        TreeV::Exit(e) => {
            lemma_expr_clean(*e, Reg::Rax, vars);
            match spec_gen_expr(*e, Reg::Rax, vars) {
                Ok(el) => {
                    let tail = seq![
                        AsmLine::Push(Reg::Rax),
                        AsmLine::MovImm(Reg::Rax, 60),
                        AsmLine::Pop(Reg::Rdi),
                        AsmLine::Syscall,
                    ];
                    assert(clean(tail));
                    lemma_clean_concat(el, tail);
                    lemma_clean_block(el + tail, lo, hi);
                },
                Err(_) => {},
            }
        },
        TreeV::SysCall(args) => {
            lemma_syscall_args_clean(args, 1, vars);
            if 1 <= args.len() <= 7 {
                lemma_expr_clean(args[0], Reg::Rax, vars);
                match (spec_gen_syscall_args(args, 1, vars), spec_gen_expr(
                    args[0],
                    Reg::Rax,
                    vars,
                )) {
                    (Ok(al), Ok(nl)) => {
                        assert(clean(seq![AsmLine::Syscall]));
                        lemma_clean_concat(al, nl);
                        lemma_clean_concat(al + nl, seq![AsmLine::Syscall]);
                        lemma_clean_block(al + nl + seq![AsmLine::Syscall], lo, hi);
                    },
                    _ => {},
                }
            }
        },
        TreeV::While { expr, start, body, end } => {
            match spec_gen_scope(body, vars) {
                Ok(body_l) => {
                    match spec_gen_cmp_exp(*expr, vars) {
                        Ok(cond_l) => {
                            let m = seq_top(body, start);
                            lemma_seq_lines(body, vars, start, m);
                            lemma_cmp_exp_clean(*expr, vars);
                            let bdefs = def_seq(body_l);
                            let a1 = seq![
                                AsmLine::Jmp(end as usize),
                                AsmLine::Label(start as usize),
                            ];
                            let a2 = seq![AsmLine::Label(end as usize)];
                            let a3 = seq![AsmLine::TestAl1, AsmLine::Jnz(start as usize)];
                            let l = a1 + body_l + a2 + cond_l + a3;
                            lemma_def_seq_concat(a1, body_l);
                            lemma_def_seq_concat(a1 + body_l, a2);
                            lemma_def_seq_concat(a1 + body_l + a2, cond_l);
                            lemma_def_seq_concat(a1 + body_l + a2 + cond_l, a3);
                            assert(start as usize as int == start);
                            assert(end as usize as int == end);
                            assert(a1.drop_first() =~= seq![AsmLine::Label(start as usize)]);
                            lemma_def_seq_label1(start as usize);
                            assert(def_seq(a1) == seq![start]);
                            lemma_def_seq_label1(end as usize);
                            assert(def_seq(a2) == seq![end]);
                            lemma_def_seq_no_labels(cond_l);
                            lemma_def_seq_no_labels(a3);
                            let d = def_seq(l);
                            assert(d =~= seq![start] + bdefs + seq![end]);
                            assert(strictly_inc(seq![start]) && in_range(seq![start], lo, start));
                            lemma_inc_join(seq![start], bdefs, lo, start, m);
                            assert(strictly_inc(seq![end]) && in_range(seq![end], m, hi));
                            lemma_inc_join(seq![start] + bdefs, seq![end], lo, m, hi);
                            assert(d =~= (seq![start] + bdefs) + seq![end]);
                            assert(strictly_inc(d) && in_range(d, lo, hi));
                            assert(d.contains(start)) by {
                                assert(d[0] == start);
                            }
                            assert(d.contains(end)) by {
                                assert(d[1 + bdefs.len() as int] == end);
                            }
                            assert(targets_in(a1, d));
                            assert forall|x: int| bdefs.contains(x) implies d.contains(x) by {
                                lemma_contains_mid(seq![start], bdefs, seq![end], x);
                            }
                            lemma_targets_lift(body_l, bdefs, d);
                            assert(targets_in(a2, d));
                            assert(targets_in(cond_l, d));
                            assert(targets_in(a3, d));
                            lemma_targets_concat_same(a1, body_l, d);
                            lemma_targets_concat_same(a1 + body_l, a2, d);
                            lemma_targets_concat_same(a1 + body_l + a2, cond_l, d);
                            lemma_targets_concat_same(a1 + body_l + a2 + cond_l, a3, d);
                        },
                        Err(_) => {},
                    }
                },
                Err(_) => {},
            }
        },
        TreeV::If { expr, body, last_case, next_case, els, els_ifs } => {
            lemma_if_stmt_lines(t, vars, lo, hi);
        },
        _ => {
            match spec_gen_stmt(t, vars) {
                Ok((l, _v2)) => {
                    assert(l == Seq::<AsmLine>::empty());
                    assert(def_seq(l) == Seq::<int>::empty());
                },
                Err(_) => {},
            }
        },
    }
}

/// The conditional case of `lemma_stmt_lines`.
#[verifier::rlimit(100)]
#[verifier::spinoff_prover]
proof fn lemma_if_stmt_lines(t: TreeV, vars: Seq<VarV>, lo: int, hi: int)
    requires
        stmt_wf(t, lo, hi),
        t is If,
        0 <= lo,
        hi <= usize::MAX as int,
    ensures
        spec_gen_stmt(t, vars) matches Ok((l, v2)) ==> strictly_inc(def_seq(l)) && in_range(
            def_seq(l),
            lo,
            hi,
        ) && targets_in(l, def_seq(l)),
    decreases t, 3int,
{
    match t {
        TreeV::If { expr, body, last_case, next_case, els, els_ifs } => {
            lemma_if_cmp_lines(*expr, next_case, vars);
            match (spec_gen_if_cmp(*expr, next_case, vars), spec_gen_scope(body, vars)) {
                (Ok(cond_l), Ok(body_l)) => {
                    let mb = seq_top(body, lo);
                    lemma_seq_lines(body, vars, lo, mb);
                    let bdefs = def_seq(body_l);
                    lemma_def_seq_no_labels(cond_l);
                    if next_case == last_case {
                        let a = seq![AsmLine::Label(next_case as usize)];
                        let l = cond_l + body_l + a;
                        lemma_def_seq_concat(cond_l, body_l);
                        lemma_def_seq_concat(cond_l + body_l, a);
                        let d = def_seq(l);
                        assert(next_case as usize as int == next_case);
                        lemma_def_seq_label1(next_case as usize);
                        assert(d =~= bdefs + seq![next_case]);
                        lemma_inc_join(bdefs, seq![next_case], lo, mb, hi);
                        assert(strictly_inc(d) && in_range(d, lo, hi));
                        assert(d.contains(next_case)) by {
                            assert(d[bdefs.len() as int] == next_case);
                        }
                        assert(targets_in(cond_l, d));
                        assert forall|x: int| bdefs.contains(x) implies d.contains(x) by {
                            lemma_contains_concat(bdefs, seq![next_case], x);
                        }
                        lemma_targets_lift(body_l, bdefs, d);
                        assert(targets_in(a, d));
                        lemma_targets_concat_same(cond_l, body_l, d);
                        lemma_targets_concat_same(cond_l + body_l, a, d);
                    } else {
                        let ce = chain_end(els_ifs, next_case);
                        lemma_chain_end_bounds(els_ifs, next_case, last_case);
                        lemma_chain_end_is_els_entry(els_ifs, next_case, last_case);
                        lemma_elsifs_lines(els_ifs, next_case, last_case, vars);
                        match spec_gen_elsifs(els_ifs, last_case, vars) {
                            Ok(eifs_l) => {
                                let edefs = def_seq(eifs_l);
                                let jm = seq![AsmLine::Jmp(last_case as usize)];
                                lemma_def_seq_no_labels(jm);
                                match els {
                                    Some(b) => {
                                        match spec_gen_scope(b, vars) {
                                            Ok(els_l) => {
                                                let me = seq_top(b, ce);
                                                lemma_seq_lines(b, vars, ce, me);
                                                let eldefs = def_seq(els_l);
                                                let en = seq![AsmLine::Label(ce as usize)];
                                                let la = seq![AsmLine::Label(last_case as usize)];
                                                let l = cond_l + body_l + jm + eifs_l + en + els_l
                                                    + la;
                                                lemma_def_seq_concat(cond_l, body_l);
                                                lemma_def_seq_concat(cond_l + body_l, jm);
                                                lemma_def_seq_concat(cond_l + body_l + jm, eifs_l);
                                                lemma_def_seq_concat(
                                                    cond_l + body_l + jm + eifs_l,
                                                    en,
                                                );
                                                lemma_def_seq_concat(
                                                    cond_l + body_l + jm + eifs_l + en,
                                                    els_l,
                                                );
                                                lemma_def_seq_concat(
                                                    cond_l + body_l + jm + eifs_l + en + els_l,
                                                    la,
                                                );
                                                let d = def_seq(l);
                                                assert(ce as usize as int == ce);
                                                assert(last_case as usize as int == last_case);
                                                lemma_def_seq_label1(ce as usize);
                                                lemma_def_seq_label1(last_case as usize);
                                                assert(d =~= bdefs + edefs + seq![ce] + eldefs
                                                    + seq![last_case]);
                                                lemma_inc_join(bdefs, edefs, lo, next_case - 1, ce
                                                    - 1);
                                                lemma_inc_join(
                                                    bdefs + edefs,
                                                    seq![ce],
                                                    lo,
                                                    ce - 1,
                                                    ce,
                                                );
                                                lemma_inc_join(
                                                    bdefs + edefs + seq![ce],
                                                    eldefs,
                                                    lo,
                                                    ce,
                                                    me,
                                                );
                                                lemma_inc_join(
                                                    bdefs + edefs + seq![ce] + eldefs,
                                                    seq![last_case],
                                                    lo,
                                                    me,
                                                    hi,
                                                );
                                                assert(strictly_inc(d) && in_range(d, lo, hi));
                                                let pre = bdefs + edefs + seq![ce] + eldefs;
                                                assert(d.contains(last_case)) by {
                                                    assert(d[pre.len() as int] == last_case);
                                                }
                                                assert(d.contains(ce)) by {
                                                    assert(d[(bdefs + edefs).len() as int] == ce);
                                                }
                                                if els_ifs.len() > 0 {
                                                    assert(edefs.contains(next_case));
                                                    assert(d.contains(next_case)) by {
                                                        lemma_contains_mid(
                                                            bdefs,
                                                            edefs,
                                                            seq![ce] + eldefs + seq![last_case],
                                                            next_case,
                                                        );
                                                        assert(bdefs + edefs + (seq![ce] + eldefs
                                                            + seq![last_case]) =~= d);
                                                    }
                                                } else {
                                                    assert(ce == next_case);
                                                    assert(d.contains(next_case));
                                                }
                                                assert forall|x: int|
                                                    bdefs.contains(x) implies d.contains(x) by {
                                                    lemma_contains_mid(
                                                        Seq::empty(),
                                                        bdefs,
                                                        edefs + seq![ce] + eldefs
                                                            + seq![last_case],
                                                        x,
                                                    );
                                                    assert(Seq::empty() + bdefs + (edefs
                                                        + seq![ce] + eldefs + seq![last_case])
                                                        =~= d);
                                                }
                                                assert forall|x: int|
                                                    edefs.contains(x) implies d.contains(x) by {
                                                    lemma_contains_mid(
                                                        bdefs,
                                                        edefs,
                                                        seq![ce] + eldefs + seq![last_case],
                                                        x,
                                                    );
                                                    assert(bdefs + edefs + (seq![ce] + eldefs
                                                        + seq![last_case]) =~= d);
                                                }
                                                assert forall|x: int|
                                                    eldefs.contains(x) implies d.contains(x) by {
                                                    lemma_contains_mid(
                                                        bdefs + edefs + seq![ce],
                                                        eldefs,
                                                        seq![last_case],
                                                        x,
                                                    );
                                                    assert(bdefs + edefs + seq![ce] + eldefs
                                                        + seq![last_case] =~= d);
                                                }
                                                assert(targets_in(cond_l, d));
                                                lemma_targets_lift(body_l, bdefs, d);
                                                assert(targets_in(jm, d));
                                                assert forall|i: int|
                                                    0 <= i < eifs_l.len() && is_jump(
                                                        #[trigger] eifs_l[i],
                                                    ) implies d.contains(
                                                    jump_target(eifs_l[i]),
                                                ) by {}
                                                assert(targets_in(eifs_l, d));
                                                assert(targets_in(en, d));
                                                lemma_targets_lift(els_l, eldefs, d);
                                                assert(targets_in(la, d));
                                                lemma_targets_concat_same(cond_l, body_l, d);
                                                lemma_targets_concat_same(cond_l + body_l, jm, d);
                                                lemma_targets_concat_same(
                                                    cond_l + body_l + jm,
                                                    eifs_l,
                                                    d,
                                                );
                                                lemma_targets_concat_same(
                                                    cond_l + body_l + jm + eifs_l,
                                                    en,
                                                    d,
                                                );
                                                lemma_targets_concat_same(
                                                    cond_l + body_l + jm + eifs_l + en,
                                                    els_l,
                                                    d,
                                                );
                                                lemma_targets_concat_same(
                                                    cond_l + body_l + jm + eifs_l + en + els_l,
                                                    la,
                                                    d,
                                                );
                                            },
                                            Err(_) => {},
                                        }
                                    },
                                    None => {
                                        let l = cond_l + body_l + jm + eifs_l;
                                        lemma_def_seq_concat(cond_l, body_l);
                                        lemma_def_seq_concat(cond_l + body_l, jm);
                                        lemma_def_seq_concat(cond_l + body_l + jm, eifs_l);
                                        let d = def_seq(l);
                                        assert(d =~= bdefs + edefs);
                                        assert(ce == last_case);
                                        assert(els_ifs.len() > 0) by {
                                            if els_ifs.len() == 0 {
                                                assert(ce == next_case);
                                            }
                                        }
                                        lemma_inc_join(bdefs, edefs, lo, next_case - 1, hi);
                                        assert(strictly_inc(d) && in_range(d, lo, hi));
                                        assert(edefs.contains(next_case));
                                        assert(edefs.contains(last_case));
                                        assert forall|x: int|
                                            edefs.contains(x) implies d.contains(x) by {
                                            lemma_contains_concat(bdefs, edefs, x);
                                        }
                                        assert forall|x: int|
                                            bdefs.contains(x) implies d.contains(x) by {
                                            lemma_contains_concat(bdefs, edefs, x);
                                        }
                                        assert(d.contains(next_case));
                                        assert(d.contains(last_case));
                                        assert(targets_in(cond_l, d));
                                        lemma_targets_lift(body_l, bdefs, d);
                                        assert(targets_in(jm, d));
                                        assert forall|i: int|
                                            0 <= i < eifs_l.len() && is_jump(
                                                #[trigger] eifs_l[i],
                                            ) implies d.contains(jump_target(eifs_l[i])) by {}
                                        assert(targets_in(eifs_l, d));
                                        lemma_targets_concat_same(cond_l, body_l, d);
                                        lemma_targets_concat_same(cond_l + body_l, jm, d);
                                        lemma_targets_concat_same(cond_l + body_l + jm, eifs_l, d);
                                    },
                                }
                            },
                            Err(_) => {},
                        }
                    }
                },
                _ => {},
            }
        },
        _ => {},
    }
}

/// The label lemma for a statement sequence.
proof fn lemma_seq_lines(ts: Seq<TreeV>, vars: Seq<VarV>, lo: int, hi: int)
    requires
        seq_wf(ts, lo, hi),
        0 <= lo,
        hi <= usize::MAX as int,
    ensures
        spec_gen_seq(ts, vars) matches Ok((l, v2)) ==> strictly_inc(def_seq(l)) && in_range(
            def_seq(l),
            lo,
            hi,
        ) && targets_in(l, def_seq(l)),
    decreases ts, 5int,
{
    if ts.len() == 0 {
        match spec_gen_seq(ts, vars) {
            Ok((l, _v2)) => {
                assert(l == Seq::<AsmLine>::empty());
                assert(def_seq(l) == Seq::<int>::empty());
            },
            Err(_) => {},
        }
    } else {
        let m = stmt_top(ts[0], lo);
        lemma_stmt_lines(ts[0], vars, lo, m);
        match spec_gen_stmt(ts[0], vars) {
            Ok((l1, v1)) => {
                lemma_seq_lines(ts.drop_first(), v1, m, hi);
                match spec_gen_seq(ts.drop_first(), v1) {
                    Ok((l2, _v2)) => {
                        lemma_def_seq_concat(l1, l2);
                        lemma_inc_join(def_seq(l1), def_seq(l2), lo, m, hi);
                        assert forall|x: int|
                            def_seq(l1).contains(x) implies def_seq(l1 + l2).contains(x) by {
                            lemma_contains_concat(def_seq(l1), def_seq(l2), x);
                        }
                        assert forall|x: int|
                            def_seq(l2).contains(x) implies def_seq(l1 + l2).contains(x) by {
                            lemma_contains_concat(def_seq(l1), def_seq(l2), x);
                        }
                        lemma_targets_lift(l1, def_seq(l1), def_seq(l1 + l2));
                        lemma_targets_lift(l2, def_seq(l2), def_seq(l1 + l2));
                        lemma_targets_concat_same(l1, l2, def_seq(l1 + l2));
                    },
                    Err(_) => {},
                }
            },
            Err(_) => {},
        }
    }
}

/// The label lemma for an `elsif` chain, entered at `cur` and joined at
/// `last`: its definitions are the chain labels and its bodies' labels, in
/// increasing order, and its jumps go to the join, to the chain's final
/// false-target, or to labels of its own.
#[verifier::rlimit(100)]
#[verifier::spinoff_prover]
proof fn lemma_elsifs_lines(eifs: Seq<TreeV>, cur: int, last: int, vars: Seq<VarV>)
    requires
        chain_ok(eifs, cur, last),
        0 <= cur <= last,
        last <= usize::MAX as int,
    ensures
        spec_gen_elsifs(eifs, last, vars) matches Ok(l) ==> {
            let d = def_seq(l);
            &&& strictly_inc(d)
            &&& in_range(d, cur - 1, last)
            &&& (chain_end(eifs, cur) < last ==> in_range(d, cur - 1, chain_end(eifs, cur) - 1))
            &&& (eifs.len() > 0 ==> d.contains(cur))
            &&& (eifs.len() > 0 && chain_end(eifs, cur) == last ==> d.contains(last))
            &&& (forall|i: int|
                0 <= i < l.len() && is_jump(#[trigger] l[i]) ==> jump_target(l[i]) == last
                    || jump_target(l[i]) == chain_end(eifs, cur) || d.contains(
                    jump_target(l[i]),
                ))
        },
    decreases eifs, 5int,
{
    if eifs.len() == 0 {
        match spec_gen_elsifs(eifs, last, vars) {
            Ok(l) => {
                assert(l == Seq::<AsmLine>::empty());
                assert(def_seq(l) == Seq::<int>::empty());
            },
            Err(_) => {},
        }
    } else {
        match eifs[0] {
            TreeV::ElsIf { curr_case, expr, body, next_case } => {
                lemma_if_cmp_lines(*expr, next_case, vars);
                let mb = seq_top(body, cur);
                lemma_seq_lines(body, vars, cur, mb);
                lemma_chain_end_bounds(eifs.drop_first(), next_case, last);
                lemma_elsifs_lines(eifs.drop_first(), next_case, last, vars);
                match (spec_gen_if_cmp(*expr, next_case, vars), spec_gen_scope(body, vars)) {
                    (Ok(cl), Ok(bl)) => {
                        let bdefs = def_seq(bl);
                        lemma_def_seq_no_labels(cl);
                        let en = seq![AsmLine::Label(cur as usize)];
                        let tail: Seq<AsmLine> = if next_case != last {
                            seq![AsmLine::Jmp(last as usize)]
                        } else {
                            seq![AsmLine::Label(last as usize)]
                        };
                        let l0 = en + cl + bl + tail;
                        lemma_def_seq_concat(en, cl);
                        lemma_def_seq_concat(en + cl, bl);
                        lemma_def_seq_concat(en + cl + bl, tail);
                        assert(cur as usize as int == cur);
                        assert(last as usize as int == last);
                        lemma_def_seq_label1(cur as usize);
                        assert(def_seq(en) == seq![cur]);
                        assert(spec_gen_elsif_stmt(eifs[0], last, vars) == Ok::<
                            Seq<AsmLine>,
                            GenError,
                        >(l0));
                        match spec_gen_elsifs(eifs.drop_first(), last, vars) {
                            Ok(lrest) => {
                                let drest = def_seq(lrest);
                                lemma_def_seq_concat(l0, lrest);
                                let l = l0 + lrest;
                                assert(spec_gen_elsifs(eifs, last, vars) == Ok::<
                                    Seq<AsmLine>,
                                    GenError,
                                >(l));
                                let d = def_seq(l);
                                let ce = chain_end(eifs, cur);
                                assert(ce == chain_end(eifs.drop_first(), next_case));
                                assert(chain_ok(eifs.drop_first(), next_case, last));
                                if next_case == last {
                                    assert(eifs.drop_first().len() == 0) by {
                                        assert(chain_ok(eifs.drop_first(), last, last));
                                        if eifs.drop_first().len() > 0 {
                                            let e2 = eifs.drop_first()[0];
                                            match e2 {
                                                TreeV::ElsIf { next_case: n2, .. } => {
                                                    assert(last < n2 <= last);
                                                },
                                                _ => {
                                                    assert(!chain_ok(
                                                        eifs.drop_first(),
                                                        last,
                                                        last,
                                                    ));
                                                },
                                            }
                                        }
                                    }
                                    assert(lrest == Seq::<AsmLine>::empty());
                                    assert(drest == Seq::<int>::empty());
                                    lemma_def_seq_label1(last as usize);
                                    assert(def_seq(tail) == seq![last]);
                                    assert(d =~= seq![cur] + bdefs + seq![last]);
                                    lemma_inc_join(seq![cur], bdefs, cur - 1, cur, mb);
                                    lemma_inc_join(
                                        seq![cur] + bdefs,
                                        seq![last],
                                        cur - 1,
                                        mb,
                                        last,
                                    );
                                    assert(strictly_inc(d) && in_range(d, cur - 1, last));
                                    assert(d.contains(cur)) by {
                                        assert(d[0] == cur);
                                    }
                                    assert(d.contains(last)) by {
                                        assert(d[1 + bdefs.len() as int] == last);
                                    }
                                    assert(ce == next_case);
                                    assert forall|x: int|
                                        bdefs.contains(x) implies d.contains(x) by {
                                        lemma_contains_mid(seq![cur], bdefs, seq![last], x);
                                    }
                                    assert forall|i: int|
                                        0 <= i < l.len() && is_jump(#[trigger] l[i]) implies
                                        jump_target(l[i]) == last || jump_target(l[i]) == ce
                                            || d.contains(jump_target(l[i])) by {
                                        if i < en.len() {
                                            assert(l[i] == en[0]);
                                        } else if i < en.len() + cl.len() {
                                            assert(l[i] == cl[i - 1]);
                                        } else if i < en.len() + cl.len() + bl.len() {
                                            assert(l[i] == bl[i - 1 - cl.len()]);
                                        } else if i < l0.len() {
                                            assert(l[i] == tail[i - 1 - cl.len() - bl.len()]);
                                        } else {
                                            assert(l[i] == lrest[i - l0.len()]);
                                        }
                                    }
                                } else {
                                    lemma_def_seq_no_labels(tail);
                                    assert(d =~= seq![cur] + bdefs + drest);
                                    assert(next_case <= ce) by {
                                        lemma_chain_end_bounds(
                                            eifs.drop_first(),
                                            next_case,
                                            last,
                                        );
                                    }
                                    lemma_inc_join(seq![cur], bdefs, cur - 1, cur, mb);
                                    lemma_inc_join(
                                        seq![cur] + bdefs,
                                        drest,
                                        cur - 1,
                                        next_case - 1,
                                        last,
                                    );
                                    assert(strictly_inc(d) && in_range(d, cur - 1, last));
                                    if ce < last {
                                        lemma_inc_join(
                                            seq![cur] + bdefs,
                                            drest,
                                            cur - 1,
                                            next_case - 1,
                                            ce - 1,
                                        );
                                        assert(in_range(d, cur - 1, ce - 1));
                                    }
                                    assert(d.contains(cur)) by {
                                        assert(d[0] == cur);
                                    }
                                    if ce == last {
                                        assert(eifs.drop_first().len() > 0) by {
                                            if eifs.drop_first().len() == 0 {
                                                assert(ce == next_case);
                                            }
                                        }
                                        assert(drest.contains(last));
                                        assert(d.contains(last)) by {
                                            lemma_contains_mid(
                                                seq![cur] + bdefs,
                                                drest,
                                                Seq::empty(),
                                                last,
                                            );
                                            assert(seq![cur] + bdefs + drest + Seq::<
                                                int,
                                            >::empty() =~= d);
                                        }
                                    }
                                    assert forall|x: int|
                                        bdefs.contains(x) implies d.contains(x) by {
                                        lemma_contains_mid(seq![cur], bdefs, drest, x);
                                    }
                                    assert forall|x: int|
                                        drest.contains(x) implies d.contains(x) by {
                                        lemma_contains_mid(seq![cur] + bdefs, drest, Seq::empty(), x);
                                        assert(seq![cur] + bdefs + drest + Seq::<int>::empty()
                                            =~= d);
                                    }
                                    if eifs.drop_first().len() > 0 {
                                        assert(drest.contains(next_case));
                                    }
                                    assert forall|i: int|
                                        0 <= i < l.len() && is_jump(#[trigger] l[i]) implies
                                        jump_target(l[i]) == last || jump_target(l[i]) == ce
                                            || d.contains(jump_target(l[i])) by {
                                        if i < en.len() {
                                            assert(l[i] == en[0]);
                                        } else if i < en.len() + cl.len() {
                                            assert(l[i] == cl[i - 1]);
                                            if is_jump(cl[i - 1]) {
                                                assert(jump_target(cl[i - 1]) == next_case);
                                                if eifs.drop_first().len() == 0 {
                                                    assert(ce == next_case);
                                                } else {
                                                    assert(d.contains(next_case));
                                                }
                                            }
                                        } else if i < en.len() + cl.len() + bl.len() {
                                            assert(l[i] == bl[i - 1 - cl.len()]);
                                        } else if i < l0.len() {
                                            assert(l[i] == tail[i - 1 - cl.len() - bl.len()]);
                                        } else {
                                            assert(l[i] == lrest[i - l0.len()]);
                                        }
                                    }
                                }
                            },
                            Err(_) => {},
                        }
                    },
                    _ => {},
                }
            },
            _ => {},
        }
    }
}

/// Parsing a factor yields a statement whose labels fill `(c, c2]`, with
/// the statement's own top label allocated by the end of its parse.
proof fn lemma_parse_factor_wf(toks: Seq<TokenV>, pos: int, c: int)
    requires
        0 <= c,
    ensures
        spec_parse_factor(toks, pos, c) matches Ok((t, p, c2)) ==> c <= c2 && (c2 < usize::MAX
            as int ==> stmt_wf(t, c, stmt_top(t, c)) && c <= stmt_top(t, c) <= c2),
    decreases toks.len() - pos, 0int,
{
    if pos >= toks.len() {
    } else {
        match toks[pos] {
            TokenV::Ident(_name) => {
                if pos + 1 < toks.len() && toks[pos + 1] is Equal {
                    lemma_parse_expression_wf(toks, pos + 2, c);
                }
            },
            TokenV::Plus => {
                lemma_parse_factor_wf(toks, pos + 1, c);
            },
            TokenV::Minus => {
                lemma_parse_factor_wf(toks, pos + 1, c);
            },
            TokenV::OpenParen => {
                if pos + 1 < toks.len() && toks[pos + 1] is CloseParen {
                } else {
                    lemma_parse_expression_wf(toks, pos + 1, c);
                }
            },
            TokenV::Let => {
                if pos + 1 < toks.len() && toks[pos + 1] is Ident {
                    if pos + 2 < toks.len() && toks[pos + 2] is Equal {
                        lemma_parse_expression_wf(toks, pos + 3, c);
                    }
                }
            },
            TokenV::If => {
                lemma_parse_paren_expr_wf(toks, pos + 1, c);
                match spec_parse_paren_expr(toks, pos + 1, c) {
                    Ok((cond, p1, c1)) => {
                        if pos < p1 <= toks.len() {
                            lemma_parse_block_wf(toks, p1, c1);
                            match spec_parse_block(toks, p1, c1) {
                                Ok((body, p2, cb)) => {
                                    if pos < p2 <= toks.len() {
                                        let nc = sat_inc(cb);
                                        lemma_parse_chain_wf(toks, p2, nc);
                                        match spec_parse_chain(toks, p2, nc) {
                                            Ok((eifs, els, p3, c3)) => {
                                                if c3 < usize::MAX as int {
                                                    assert(cb < usize::MAX as int);
                                                    assert(nc == cb + 1);
                                                    lemma_seq_wf_self_mono(body, c1, c);
                                                    lemma_seq_top_mono_general(body, c, c1);
                                                    lemma_seq_top_lower(
                                                        body,
                                                        c,
                                                        seq_top(body, c),
                                                    );
                                                    let t = TreeV::If {
                                                        expr: Box::new(cond),
                                                        body: body,
                                                        last_case: c3,
                                                        next_case: nc,
                                                        els: els,
                                                        els_ifs: eifs,
                                                    };
                                                    assert(stmt_top(t, c) == c3);
                                                    assert(c < nc <= c3);
                                                    assert(c <= seq_top(body, c) < nc);
                                                    assert(seq_wf(body, c, seq_top(body, c)));
                                                    if nc == c3 {
                                                        assert(stmt_wf(t, c, c3));
                                                    } else {
                                                        assert(chain_ok(eifs, nc, c3));
                                                        assert(stmt_wf(t, c, c3));
                                                    }
                                                }
                                            },
                                            Err(_) => {},
                                        }
                                    }
                                },
                                Err(_) => {},
                            }
                        }
                    },
                    Err(_) => {},
                }
            },
            TokenV::While => {
                let start = sat_inc(c);
                lemma_parse_paren_expr_wf(toks, pos + 1, start);
                match spec_parse_paren_expr(toks, pos + 1, start) {
                    Ok((cond, p1, c1)) => {
                        if pos < p1 <= toks.len() {
                            lemma_parse_block_wf(toks, p1, c1);
                            match spec_parse_block(toks, p1, c1) {
                                Ok((body, p2, cb)) => {
                                    let end = sat_inc(cb);
                                    if end < usize::MAX as int {
                                        assert(cb < usize::MAX as int);
                                        assert(end == cb + 1);
                                        assert(c < usize::MAX as int);
                                        assert(start == c + 1);
                                        lemma_seq_wf_self_mono(body, c1, start);
                                        lemma_seq_top_mono_general(body, start, c1);
                                        lemma_seq_top_lower(body, start, seq_top(body, start));
                                        let t = TreeV::While {
                                            expr: Box::new(cond),
                                            start: start,
                                            body: body,
                                            end: end,
                                        };
                                        assert(stmt_top(t, c) == end);
                                        assert(stmt_wf(t, c, end));
                                    }
                                },
                                Err(_) => {},
                            }
                        }
                    },
                    Err(_) => {},
                }
            },
            TokenV::For => {
                if pos + 1 >= toks.len() {
                } else {
                    match toks[pos + 1] {
                        TokenV::Ident(_v) => {
                            if pos + 2 < toks.len() && toks[pos + 2] is ThinArrow {
                                lemma_parse_expression_wf(toks, pos + 3, c);
                                match spec_parse_expression(toks, pos + 3, c) {
                                    Ok((_e, p1, c1)) => {
                                        if pos < p1 <= toks.len() {
                                            lemma_parse_block_wf(toks, p1, c1);
                                        }
                                    },
                                    Err(_) => {},
                                }
                            }
                        },
                        TokenV::OpenParen => {
                            let start = sat_inc(c);
                            lemma_parse_paren_expr_wf(toks, pos + 1, start);
                            match spec_parse_paren_expr(toks, pos + 1, start) {
                                Ok((cond, p1, c1)) => {
                                    if pos < p1 <= toks.len() {
                                        lemma_parse_block_wf(toks, p1, c1);
                                        match spec_parse_block(toks, p1, c1) {
                                            Ok((body, p2, cb)) => {
                                                let end = sat_inc(cb);
                                                if end < usize::MAX as int {
                                                    assert(cb < usize::MAX as int);
                                                    assert(end == cb + 1);
                                                    assert(c < usize::MAX as int);
                                                    assert(start == c + 1);
                                                    lemma_seq_wf_self_mono(body, c1, start);
                                                    lemma_seq_top_mono_general(body, start, c1);
                                                    lemma_seq_top_lower(
                                                        body,
                                                        start,
                                                        seq_top(body, start),
                                                    );
                                                    let t = TreeV::While {
                                                        expr: Box::new(cond),
                                                        start: start,
                                                        body: body,
                                                        end: end,
                                                    };
                                                    assert(stmt_top(t, c) == end);
                                                    assert(stmt_wf(t, c, end));
                                                }
                                            },
                                            Err(_) => {},
                                        }
                                    }
                                },
                                Err(_) => {},
                            }
                        },
                        _ => {},
                    }
                }
            },
            TokenV::Exit => {
                lemma_parse_factor_wf(toks, pos + 1, c);
            },
            TokenV::SysCall => {
                if pos + 1 < toks.len() && toks[pos + 1] is OpenParen {
                    lemma_parse_args_wf(toks, pos + 2, c);
                }
            },
            _ => {},
        }
    }
}

proof fn lemma_parse_term_wf(toks: Seq<TokenV>, pos: int, c: int)
    requires
        0 <= c,
    ensures
        spec_parse_term(toks, pos, c) matches Ok((t, p, c2)) ==> c <= c2 && (c2 < usize::MAX
            as int ==> stmt_wf(t, c, stmt_top(t, c)) && c <= stmt_top(t, c) <= c2),
    decreases toks.len() - pos, 1int,
{
    lemma_parse_factor_wf(toks, pos, c);
    match spec_parse_factor(toks, pos, c) {
        Ok((left, p1, c1)) => {
            if pos < p1 <= toks.len() {
                lemma_parse_term_rest_wf(left, toks, p1, c1, c);
            }
        },
        Err(_) => {},
    }
}

proof fn lemma_parse_term_rest_wf(left: TreeV, toks: Seq<TokenV>, pos: int, c: int, e: int)
    requires
        0 <= e <= c,
        c < usize::MAX as int ==> stmt_wf(left, e, stmt_top(left, e)) && e <= stmt_top(left, e)
            <= c,
    ensures
        spec_parse_term_rest(left, toks, pos, c) matches Ok((t, p, c2)) ==> c <= c2 && (c2
            < usize::MAX as int ==> stmt_wf(t, e, stmt_top(t, e)) && e <= stmt_top(t, e) <= c2),
    decreases toks.len() - pos, 0int,
{
    if pos < toks.len() && (toks[pos] is Multiply || toks[pos] is Divide) {
        lemma_parse_factor_wf(toks, pos + 1, c);
        match spec_parse_factor(toks, pos + 1, c) {
            Ok((right, p2, c2)) => {
                if pos < p2 <= toks.len() {
                    let combined = TreeV::BinOp(Box::new(left), toks[pos], Box::new(right));
                    assert(stmt_top(combined, e) == e);
                    lemma_parse_term_rest_wf(combined, toks, p2, c2, e);
                }
            },
            Err(_) => {},
        }
    }
}

proof fn lemma_parse_expression_wf(toks: Seq<TokenV>, pos: int, c: int)
    requires
        0 <= c,
    ensures
        spec_parse_expression(toks, pos, c) matches Ok((t, p, c2)) ==> c <= c2 && (c2 < usize::MAX
            as int ==> stmt_wf(t, c, stmt_top(t, c)) && c <= stmt_top(t, c) <= c2),
    decreases toks.len() - pos, 2int,
{
    lemma_parse_term_wf(toks, pos, c);
    match spec_parse_term(toks, pos, c) {
        Ok((left, p1, c1)) => {
            if pos < p1 <= toks.len() {
                lemma_parse_expr_rest_wf(left, toks, p1, c1, c);
            }
        },
        Err(_) => {},
    }
}

proof fn lemma_parse_expr_rest_wf(left: TreeV, toks: Seq<TokenV>, pos: int, c: int, e: int)
    requires
        0 <= e <= c,
        c < usize::MAX as int ==> stmt_wf(left, e, stmt_top(left, e)) && e <= stmt_top(left, e)
            <= c,
    ensures
        spec_parse_expr_rest(left, toks, pos, c) matches Ok((t, p, c2)) ==> c <= c2 && (c2
            < usize::MAX as int ==> stmt_wf(t, e, stmt_top(t, e)) && e <= stmt_top(t, e) <= c2),
    decreases toks.len() - pos, 0int,
{
    if pos < toks.len() && is_expr_op(toks[pos]) {
        lemma_parse_term_wf(toks, pos + 1, c);
        match spec_parse_term(toks, pos + 1, c) {
            Ok((right, p2, c2)) => {
                if pos < p2 <= toks.len() {
                    let combined = combine_expr_op(left, toks[pos], right);
                    assert(stmt_top(combined, e) == e);
                    assert(c2 < usize::MAX as int ==> stmt_wf(combined, e, e));
                    lemma_parse_expr_rest_wf(combined, toks, p2, c2, e);
                }
            },
            Err(_) => {},
        }
    }
}

proof fn lemma_parse_paren_expr_wf(toks: Seq<TokenV>, pos: int, c: int)
    requires
        0 <= c,
    ensures
        spec_parse_paren_expr(toks, pos, c) matches Ok((t, p, c2)) ==> c <= c2 && (c2 < usize::MAX
            as int ==> stmt_wf(t, c, stmt_top(t, c)) && c <= stmt_top(t, c) <= c2),
    decreases toks.len() - pos, 3int,
{
    if pos < toks.len() && toks[pos] is OpenParen {
        lemma_parse_expression_wf(toks, pos + 1, c);
    }
}

proof fn lemma_parse_block_wf(toks: Seq<TokenV>, pos: int, c: int)
    requires
        0 <= c,
    ensures
        spec_parse_block(toks, pos, c) matches Ok((ts, p, c2)) ==> c <= c2 && (c2 < usize::MAX
            as int ==> seq_wf(ts, c, seq_top(ts, c)) && c <= seq_top(ts, c) <= c2),
    decreases toks.len() - pos, 3int,
{
    if pos < toks.len() && toks[pos] is OpenCurly {
        lemma_parse_block_items_wf(toks, pos + 1, c);
    }
}

proof fn lemma_parse_block_items_wf(toks: Seq<TokenV>, pos: int, c: int)
    requires
        0 <= c,
    ensures
        spec_parse_block_items(toks, pos, c) matches Ok((ts, p, c2)) ==> c <= c2 && (c2
            < usize::MAX as int ==> seq_wf(ts, c, seq_top(ts, c)) && c <= seq_top(ts, c) <= c2),
    decreases toks.len() - pos, 1int,
{
    if pos >= toks.len() {
    } else if toks[pos] is CloseCurly {
        assert(seq_top(Seq::<TreeV>::empty(), c) == c);
        assert(seq_wf(Seq::<TreeV>::empty(), c, c));
    } else {
        lemma_parse_factor_wf(toks, pos, c);
        match spec_parse_factor(toks, pos, c) {
            Ok((t0, p1, c1)) => {
                if pos < p1 <= toks.len() {
                    lemma_parse_block_items_wf(toks, p1, c1);
                    match spec_parse_block_items(toks, p1, c1) {
                        Ok((rest, p2, c2)) => {
                            if c2 < usize::MAX as int {
                                let ts = seq![t0] + rest;
                                let m = stmt_top(t0, c);
                                assert(ts[0] == t0);
                                assert(ts.drop_first() =~= rest);
                                lemma_seq_wf_self_mono(rest, c1, m);
                                lemma_seq_top_mono_general(rest, m, c1);
                                lemma_seq_top_lower(rest, m, seq_top(rest, m));
                                assert(seq_top(ts, c) == seq_top(rest, m));
                                assert(seq_wf(ts, c, seq_top(ts, c)));
                            }
                        },
                        Err(_) => {},
                    }
                }
            },
            Err(_) => {},
        }
    }
}

proof fn lemma_parse_chain_wf(toks: Seq<TokenV>, pos: int, c: int)
    requires
        0 <= c,
    ensures
        spec_parse_chain(toks, pos, c) matches Ok((eifs, els, p, c2)) ==> c <= c2 && (c2
            < usize::MAX as int ==> chain_ok(eifs, c, c2) && (match els {
            Some(b) => {
                let entry = chain_end(eifs, c);
                &&& entry < c2
                &&& entry <= seq_top(b, entry) < c2
                &&& seq_wf(b, entry, seq_top(b, entry))
            },
            None => chain_end(eifs, c) == c2,
        })),
    decreases toks.len() - pos, 1int,
{
    if pos < toks.len() && toks[pos] is Els {
        lemma_parse_block_wf(toks, pos + 1, c);
        match spec_parse_block(toks, pos + 1, c) {
            Ok((b, p1, c1)) => {
                if p1 < toks.len() && toks[p1] is Els {
                } else {
                    let c2 = sat_inc(c1);
                    if c2 < usize::MAX as int {
                        assert(c1 < usize::MAX as int);
                        assert(c2 == c1 + 1);
                        assert(chain_end(Seq::<TreeV>::empty(), c) == c);
                        assert(chain_ok(Seq::<TreeV>::empty(), c, c2));
                    }
                }
            },
            Err(_) => {},
        }
    } else if pos < toks.len() && toks[pos] is ElsIf {
        lemma_parse_paren_expr_wf(toks, pos + 1, c);
        match spec_parse_paren_expr(toks, pos + 1, c) {
            Ok((cond, p1, c1)) => {
                if pos < p1 <= toks.len() {
                    lemma_parse_block_wf(toks, p1, c1);
                    match spec_parse_block(toks, p1, c1) {
                        Ok((b, p2, cb)) => {
                            if pos < p2 <= toks.len() {
                                let nc = sat_inc(cb);
                                lemma_parse_chain_wf(toks, p2, nc);
                                match spec_parse_chain(toks, p2, nc) {
                                    Ok((rest, els, p3, c3)) => {
                                        if c3 < usize::MAX as int {
                                            assert(cb < usize::MAX as int);
                                            assert(nc == cb + 1);
                                            let e0 = TreeV::ElsIf {
                                                curr_case: c,
                                                expr: Box::new(cond),
                                                body: b,
                                                next_case: nc,
                                            };
                                            let eifs = seq![e0] + rest;
                                            assert(eifs[0] == e0);
                                            assert(eifs.drop_first() =~= rest);
                                            lemma_seq_wf_self_mono(b, c1, c);
                                            lemma_seq_top_mono_general(b, c, c1);
                                            lemma_seq_top_lower(b, c, seq_top(b, c));
                                            assert(chain_ok(eifs, c, c3));
                                            assert(chain_end(eifs, c) == chain_end(rest, nc));
                                        }
                                    },
                                    Err(_) => {},
                                }
                            }
                        },
                        Err(_) => {},
                    }
                }
            },
            Err(_) => {},
        }
    } else {
        assert(chain_end(Seq::<TreeV>::empty(), c) == c);
        assert(chain_ok(Seq::<TreeV>::empty(), c, c));
    }
}

proof fn lemma_parse_args_wf(toks: Seq<TokenV>, pos: int, c: int)
    requires
        0 <= c,
    ensures
        spec_parse_args(toks, pos, c) matches Ok((ts, p, c2)) ==> c <= c2,
    decreases toks.len() - pos, 4int,
{
    lemma_parse_expression_wf(toks, pos, c);
    match spec_parse_expression(toks, pos, c) {
        Ok((_e2, p1, c1)) => {
            if pos < p1 <= toks.len() {
                if p1 < toks.len() && toks[p1] is Comma {
                    lemma_parse_args_wf(toks, p1 + 1, c1);
                }
            }
        },
        Err(_) => {},
    }
}

proof fn lemma_parse_items_wf(toks: Seq<TokenV>, pos: int, c: int)
    requires
        0 <= c,
    ensures
        spec_parse_items(toks, pos, c) matches Ok((ts, p, c2)) ==> c <= c2 && (c2 < usize::MAX
            as int ==> seq_wf(ts, c, seq_top(ts, c)) && c <= seq_top(ts, c) <= c2),
    decreases toks.len() - pos, 4int,
{
    if pos >= toks.len() {
        assert(seq_top(Seq::<TreeV>::empty(), c) == c);
        assert(seq_wf(Seq::<TreeV>::empty(), c, c));
    } else {
        lemma_parse_expression_wf(toks, pos, c);
        match spec_parse_expression(toks, pos, c) {
            Ok((t0, p1, c1)) => {
                if pos < p1 <= toks.len() {
                    lemma_parse_items_wf(toks, p1, c1);
                    match spec_parse_items(toks, p1, c1) {
                        Ok((rest, p2, c2)) => {
                            if c2 < usize::MAX as int {
                                let ts = seq![t0] + rest;
                                let m = stmt_top(t0, c);
                                assert(ts[0] == t0);
                                assert(ts.drop_first() =~= rest);
                                lemma_seq_wf_self_mono(rest, c1, m);
                                lemma_seq_top_mono_general(rest, m, c1);
                                lemma_seq_top_lower(rest, m, seq_top(rest, m));
                                assert(seq_top(ts, c) == seq_top(rest, m));
                                assert(seq_wf(ts, c, seq_top(ts, c)));
                            }
                        },
                        Err(_) => {},
                    }
                }
            },
            Err(_) => {},
        }
    }
}

/// Law: label uniqueness.  For any parsed program whose generation
/// succeeds, every label defined in the generated lines is defined exactly
/// once (the definitions appear in strictly increasing order of their
/// numbers), and every jump goes to a label that is defined.
pub proof fn lemma_label_uniqueness(
    toks: Seq<TokenV>,
    trees: Seq<TreeV>,
    count: int,
    lines: Seq<AsmLine>,
)
    requires
        spec_parse_program(toks) == Ok::<(Seq<TreeV>, int), ParseError>((trees, count)),
        count < usize::MAX as int,
        spec_gen_program(trees) == Ok::<Seq<AsmLine>, GenError>(lines),
    ensures
        forall|i: int, j: int|
            0 <= i < j < def_seq(lines).len() ==> def_seq(lines)[i] != def_seq(lines)[j],
        forall|i: int|
            0 <= i < lines.len() && is_jump(#[trigger] lines[i]) ==> def_seq(lines).contains(
                jump_target(lines[i]),
            ),
{
    lemma_parse_items_wf(toks, 0, 0);
    match spec_parse_items(toks, 0, 0) {
        Ok((ts, p, c2)) => {
            assert(ts == trees && c2 == count);
            assert(seq_wf(trees, 0, seq_top(trees, 0)));
            lemma_seq_wf_mono(trees, 0, seq_top(trees, 0), 0, count);
            lemma_seq_lines(trees, Seq::empty(), 0, count);
            match spec_gen_seq(trees, Seq::empty()) {
                Ok((l, _v)) => {
                    assert(l == lines);
                    assert(strictly_inc(def_seq(lines)));
                },
                Err(_) => {},
            }
        },
        Err(_) => {},
    }
}

} // verus!

