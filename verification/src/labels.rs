//! The labels that the generated assembly defines, and why no two of them
//! are the same.

use vstd::prelude::*;
use crate::gen_ir::{FunctionView, IROp, IR};
use crate::gen_x86::{
    arg_moves, body_lines, data_lines, end_label, epilogue_lines, function_lines,
    functions_lines, global_lines, globals_lines, header_lines, insn_lines, lhs_of, local_label,
    program_lines, prologue_lines,
};
use crate::text::{decimal, is_digit, lemma_decimal_digits, lemma_decimal_injective, one, AsmLine};
use crate::{Scope, Var};

verus! {

/// The names of the labels that `lines` define, in order.
pub open spec fn labels(lines: Seq<AsmLine>) -> Seq<Seq<char>>
    decreases lines.len(),
{
    if lines.len() == 0 {
        Seq::empty()
    } else {
        match lines.last() {
            AsmLine::Label(name) => labels(lines.drop_last()).push(name),
            _ => labels(lines.drop_last()),
        }
    }
}

/// A single line defines its label if it is a label, and none if not.
pub broadcast proof fn lemma_labels_one(l: AsmLine)
    ensures
        #[trigger] labels(one(l)) == match l {
            AsmLine::Label(name) => seq![name],
            _ => Seq::empty(),
        },
{
    assert(one(l).drop_last() =~= Seq::<AsmLine>::empty());
    assert(labels(one(l).drop_last()) =~= Seq::<Seq<char>>::empty());
    match l {
        AsmLine::Label(name) => {
            assert(labels(one(l)) =~= seq![name]);
        },
        _ => {},
    }
}

/// The labels of lines put together are the labels of the first lines,
/// then those of the others.
pub broadcast proof fn lemma_labels_concat(a: Seq<AsmLine>, b: Seq<AsmLine>)
    ensures
        #[trigger] labels(a + b) == labels(a) + labels(b),
    decreases b.len(),
{
    if b.len() == 0 {
        assert(a + b =~= a);
        assert(labels(a) + labels(b) =~= labels(a));
    } else {
        lemma_labels_concat(a, b.drop_last());
        assert((a + b).drop_last() =~= a + b.drop_last());
        assert((a + b).last() == b.last());
        assert(labels(a + b) =~= labels(a) + labels(b));
    }
}

proof fn lemma_no_label_lines(lines: Seq<AsmLine>)
    requires
        forall|i: int| 0 <= i < lines.len() ==> !(#[trigger] lines[i] is Label),
    ensures
        labels(lines) == Seq::<Seq<char>>::empty(),
    decreases lines.len(),
{
    if lines.len() > 0 {
        lemma_no_label_lines(lines.drop_last());
    }
}

/// The numbers of the labels that the instructions `irs` define, in
/// order.
pub open spec fn label_numbers_of(irs: Seq<IR>) -> Seq<int>
    decreases irs.len(),
{
    if irs.len() == 0 {
        Seq::empty()
    } else if irs.last().op is Label {
        label_numbers_of(irs.drop_last()).push(lhs_of(irs.last()))
    } else {
        label_numbers_of(irs.drop_last())
    }
}

/// The names of the labels that the instructions `irs` define, in order.
pub open spec fn local_labels(irs: Seq<IR>) -> Seq<Seq<char>>
    decreases irs.len(),
{
    if irs.len() == 0 {
        Seq::empty()
    } else if irs.last().op is Label {
        local_labels(irs.drop_last()).push(local_label(lhs_of(irs.last())))
    } else {
        local_labels(irs.drop_last())
    }
}

/// The names of the globals of `globals` that are defined here, in order.
pub open spec fn global_names(globals: Seq<Var>) -> Seq<Seq<char>>
    decreases globals.len(),
{
    if globals.len() == 0 {
        Seq::empty()
    } else {
        match globals.last().scope {
            Scope::Global(_, _, is_extern) => if is_extern {
                global_names(globals.drop_last())
            } else {
                global_names(globals.drop_last()).push(globals.last().name@)
            },
            Scope::Local(_, _) => global_names(globals.drop_last()),
        }
    }
}

/// The names of the labels that the functions `fns` define, in order: for
/// each function its name, the labels of its instructions and the label of
/// its epilogue, numbered from `label` on.
pub open spec fn function_labels(fns: Seq<FunctionView>, label: int) -> Seq<Seq<char>>
    decreases fns.len(),
{
    if fns.len() == 0 {
        Seq::empty()
    } else {
        function_labels(fns.drop_last(), label) + seq![fns.last().name] + local_labels(
            fns.last().ir,
        ) + seq![end_label(label + fns.len() - 1)]
    }
}

proof fn lemma_insn_labels(ir: IR, ret: Seq<char>)
    ensures
        labels(insn_lines(ir, ret)) == if ir.op is Label {
            seq![local_label(lhs_of(ir))]
        } else {
            Seq::<Seq<char>>::empty()
        },
{
    broadcast use {lemma_labels_one, lemma_labels_concat};

    match ir.op {
        IROp::Label => {},
        IROp::Call(name, nargs, args) => {
            lemma_no_label_lines(arg_moves(args@, nargs as int));
            assert(labels(insn_lines(ir, ret)) =~= Seq::<Seq<char>>::empty());
        },
        _ => {
            assert(labels(insn_lines(ir, ret)) =~= Seq::<Seq<char>>::empty());
        },
    }
}

proof fn lemma_body_labels(irs: Seq<IR>, ret: Seq<char>)
    ensures
        labels(body_lines(irs, ret)) == local_labels(irs),
    decreases irs.len(),
{
    broadcast use {lemma_labels_one, lemma_labels_concat};

    if irs.len() > 0 {
        lemma_body_labels(irs.drop_last(), ret);
        lemma_insn_labels(irs.last(), ret);
        assert(labels(body_lines(irs, ret)) =~= local_labels(irs));
    } else {
        assert(body_lines(irs, ret) =~= Seq::<AsmLine>::empty());
    }
}

proof fn lemma_function_line_labels(f: FunctionView, label: int)
    ensures
        labels(function_lines(f, label)) == seq![f.name] + local_labels(f.ir) + seq![
            end_label(label),
        ],
{
    broadcast use {lemma_labels_one, lemma_labels_concat};

    lemma_body_labels(f.ir, end_label(label));
    assert(labels(prologue_lines(f.name, f.stacksize)) =~= seq![f.name]);
    assert(labels(epilogue_lines(end_label(label))) =~= seq![end_label(label)]);
}

proof fn lemma_functions_line_labels(fns: Seq<FunctionView>, label: int)
    ensures
        labels(functions_lines(fns, label)) == function_labels(fns, label),
    decreases fns.len(),
{
    broadcast use {lemma_labels_one, lemma_labels_concat};

    if fns.len() > 0 {
        lemma_functions_line_labels(fns.drop_last(), label);
        lemma_function_line_labels(fns.last(), label + fns.len() - 1);
        assert(labels(functions_lines(fns, label)) =~= function_labels(fns, label));
    } else {
        assert(functions_lines(fns, label) =~= Seq::<AsmLine>::empty());
    }
}

proof fn lemma_globals_line_labels(globals: Seq<Var>)
    ensures
        labels(globals_lines(globals)) == global_names(globals),
        labels(data_lines(globals)) == global_names(globals),
    decreases globals.len(),
{
    broadcast use {lemma_labels_one, lemma_labels_concat};

    if globals.len() > 0 {
        lemma_globals_line_labels(globals.drop_last());
        assert(labels(global_lines(globals.last())) =~= match globals.last().scope {
            Scope::Global(_, _, is_extern) => if is_extern {
                Seq::<Seq<char>>::empty()
            } else {
                seq![globals.last().name@]
            },
            Scope::Local(_, _) => Seq::<Seq<char>>::empty(),
        });
        assert(labels(globals_lines(globals)) =~= global_names(globals));
    } else {
        assert(globals_lines(globals) =~= Seq::<AsmLine>::empty());
    }
    if globals_lines(globals).len() == 0 {
        assert(labels(data_lines(globals)) =~= global_names(globals));
    } else {
        assert(labels(data_lines(globals)) =~= global_names(globals));
    }
}

/// The labels of a program are the names of its defined globals, then for
/// each function its name, the labels inside it, and the label of its
/// epilogue.
pub proof fn lemma_program_labels(globals: Seq<Var>, fns: Seq<FunctionView>, label: int)
    ensures
        labels(program_lines(globals, fns, label)) == global_names(globals) + function_labels(
            fns,
            label,
        ),
{
    broadcast use {lemma_labels_one, lemma_labels_concat};

    lemma_globals_line_labels(globals);
    lemma_functions_line_labels(fns, label);
    assert(labels(header_lines()) =~= Seq::<Seq<char>>::empty());
    assert(labels(program_lines(globals, fns, label)) =~= global_names(globals)
        + function_labels(fns, label));
}


/// Whether `t` is one digit or more, and digits alone.
pub open spec fn is_number(t: Seq<char>) -> bool {
    t.len() >= 1 && forall|i: int| 0 <= i < t.len() ==> is_digit(#[trigger] t[i])
}

/// Whether `name` has the form of a label that the generator makes up:
/// `.L` or `.Lend`, and then digits alone.
pub open spec fn is_made_up(name: Seq<char>) -> bool {
    ||| name.len() >= 2 && name.subrange(0, 2) == ".L"@ && is_number(name.skip(2))
    ||| name.len() >= 5 && name.subrange(0, 5) == ".Lend"@ && is_number(name.skip(5))
}

/// Whether `name` cannot be taken for a label that the generator makes
/// up.  A name may begin with a period, and with `.L`.
pub open spec fn is_symbol(name: Seq<char>) -> bool {
    !is_made_up(name)
}

/// The names of the functions `fns`, in order.
pub open spec fn function_names(fns: Seq<FunctionView>) -> Seq<Seq<char>> {
    Seq::new(fns.len(), |k: int| fns[k].name)
}

/// The numbers of the labels that the instructions of the functions `fns`
/// define, in order.
pub open spec fn label_numbers(fns: Seq<FunctionView>) -> Seq<int>
    decreases fns.len(),
{
    if fns.len() == 0 {
        Seq::empty()
    } else {
        label_numbers(fns.drop_last()) + label_numbers_of(fns.last().ir)
    }
}

/// Whether the program keeps the rules on names: no two of its defined
/// globals and functions have the same name, none of these names has the
/// form of a label that the generator makes up, and no two `Label`
/// instructions define the same number.
pub open spec fn well_named(globals: Seq<Var>, fns: Seq<FunctionView>) -> bool {
    let names = global_names(globals) + function_names(fns);
    &&& names.no_duplicates()
    &&& forall|i: int| 0 <= i < names.len() ==> is_symbol(#[trigger] names[i])
    &&& label_numbers(fns).no_duplicates()
}

proof fn lemma_label_classes(a: int, b: int, name: Seq<char>)
    requires
        a >= 0,
        b >= 0,
    ensures
        local_label(a) != end_label(b),
        is_symbol(name) ==> name != local_label(a) && name != end_label(b),
        local_label(a) == local_label(b) ==> a == b,
        end_label(a) == end_label(b) ==> a == b,
{
    reveal_strlit(".L");
    reveal_strlit(".Lend");
    lemma_decimal_digits(a as nat);
    lemma_decimal_digits(b as nat);
    assert(local_label(a)[2] == decimal(a as nat)[0]);
    assert(is_digit(decimal(a as nat)[0]));
    assert(end_label(b)[2] == 'e');
    assert(local_label(a).subrange(0, 2) =~= ".L"@);
    assert(local_label(a).skip(2) =~= decimal(a as nat));
    assert(is_made_up(local_label(a)));
    assert(end_label(b).subrange(0, 5) =~= ".Lend"@);
    assert(end_label(b).skip(5) =~= decimal(b as nat));
    assert(is_made_up(end_label(b)));
    if local_label(a) == local_label(b) {
        assert(local_label(a).skip(2) =~= decimal(a as nat));
        assert(local_label(b).skip(2) =~= decimal(b as nat));
        lemma_decimal_injective(a as nat, b as nat);
    }
    if end_label(a) == end_label(b) {
        assert(end_label(a).skip(5) =~= decimal(a as nat));
        assert(end_label(b).skip(5) =~= decimal(b as nat));
        lemma_decimal_injective(a as nat, b as nat);
    }
}

proof fn lemma_local_labels(irs: Seq<IR>)
    ensures
        local_labels(irs).len() == label_numbers_of(irs).len(),
        forall|i: int|
            0 <= i < local_labels(irs).len() ==> {
                &&& #[trigger] local_labels(irs)[i] == local_label(label_numbers_of(irs)[i])
                &&& label_numbers_of(irs)[i] >= 0
            },
        forall|i: int|
            0 <= i < label_numbers_of(irs).len() ==> #[trigger] label_numbers_of(irs)[i] >= 0,
    decreases irs.len(),
{
    if irs.len() > 0 {
        lemma_local_labels(irs.drop_last());
    }
}

proof fn lemma_split_no_duplicates<A>(a: Seq<A>, b: Seq<A>)
    requires
        (a + b).no_duplicates(),
    ensures
        a.no_duplicates(),
        b.no_duplicates(),
        forall|i: int, j: int| 0 <= i < a.len() && 0 <= j < b.len() ==> a[i] != b[j],
{
    let s = a + b;
    assert forall|i: int, j: int| 0 <= i < a.len() && 0 <= j < a.len() && i != j implies a[i]
        != a[j] by {
        assert(s[i] == a[i] && s[j] == a[j]);
    }
    assert forall|i: int, j: int| 0 <= i < b.len() && 0 <= j < b.len() && i != j implies b[i]
        != b[j] by {
        assert(s[a.len() + i] == b[i] && s[a.len() + j] == b[j]);
    }
    assert forall|i: int, j: int| 0 <= i < a.len() && 0 <= j < b.len() implies a[i] != b[j] by {
        assert(s[i] == a[i] && s[a.len() + j] == b[j]);
    }
}

proof fn lemma_label_numbers(fns: Seq<FunctionView>)
    ensures
        forall|i: int| 0 <= i < label_numbers(fns).len() ==> #[trigger] label_numbers(fns)[i] >= 0,
    decreases fns.len(),
{
    if fns.len() > 0 {
        let front = label_numbers(fns.drop_last());
        let more = label_numbers_of(fns.last().ir);
        lemma_label_numbers(fns.drop_last());
        lemma_local_labels(fns.last().ir);
        assert forall|i: int| 0 <= i < label_numbers(fns).len() implies #[trigger] label_numbers(
            fns,
        )[i] >= 0 by {
            if i < front.len() {
                assert(front[i] >= 0);
            } else {
                assert(more[i - front.len()] >= 0);
            }
        }
    }
}

/// Whether `x` is a label that one of the functions `fns` may define: the
/// name of one of them, the name for one of their label numbers, or the
/// name of one of their epilogue labels.
pub open spec fn from_functions(x: Seq<char>, fns: Seq<FunctionView>, label: int) -> bool {
    ||| exists|k: int| 0 <= k < fns.len() && x == #[trigger] fns[k].name
    ||| exists|i: int|
        0 <= i < label_numbers(fns).len() && x == local_label(#[trigger] label_numbers(fns)[i])
    ||| exists|j: int| 0 <= j < fns.len() && x == #[trigger] end_label(label + j)
}

proof fn lemma_from_more_functions(x: Seq<char>, fns: Seq<FunctionView>, label: int)
    requires
        fns.len() > 0,
        from_functions(x, fns.drop_last(), label),
    ensures
        from_functions(x, fns, label),
{
    let front = fns.drop_last();
    if exists|k: int| 0 <= k < front.len() && x == #[trigger] front[k].name {
        let k = choose|k: int| 0 <= k < front.len() && x == #[trigger] front[k].name;
        assert(x == fns[k].name);
    } else if exists|i: int|
        0 <= i < label_numbers(front).len() && x == local_label(#[trigger] label_numbers(front)[i]) {
        let i = choose|i: int|
            0 <= i < label_numbers(front).len() && x == local_label(
                #[trigger] label_numbers(front)[i],
            );
        assert(label_numbers(fns)[i] == label_numbers(front)[i]);
    } else {
        let j = choose|j: int| 0 <= j < front.len() && x == #[trigger] end_label(label + j);
        assert(0 <= j < fns.len() && x == end_label(label + j));
    }
}

proof fn lemma_function_labels_distinct(fns: Seq<FunctionView>, label: int)
    requires
        label >= 0,
        function_names(fns).no_duplicates(),
        forall|k: int| 0 <= k < fns.len() ==> is_symbol(#[trigger] fns[k].name),
        label_numbers(fns).no_duplicates(),
    ensures
        function_labels(fns, label).no_duplicates(),
        forall|i: int|
            0 <= i < function_labels(fns, label).len() ==> from_functions(
                #[trigger] function_labels(fns, label)[i],
                fns,
                label,
            ),
    decreases fns.len(),
{
    if fns.len() > 0 {
        let front = fns.drop_last();
        let f = fns.last();
        let n = fns.len() - 1;
        let numbers = label_numbers_of(f.ir);
        let locals = local_labels(f.ir);
        let a = function_labels(front, label);
        let b = seq![f.name] + locals + seq![end_label(label + n)];
        assert(function_labels(fns, label) =~= a + b);
        assert forall|i: int, j: int|
            0 <= i < front.len() && 0 <= j < front.len() && i != j implies function_names(
            front,
        )[i] != function_names(front)[j] by {
            assert(function_names(fns)[i] == front[i].name);
            assert(function_names(fns)[j] == front[j].name);
        }
        assert forall|k: int| 0 <= k < front.len() implies is_symbol(#[trigger] front[k].name) by {
            assert(front[k] == fns[k]);
        }
        lemma_split_no_duplicates(label_numbers(front), numbers);
        lemma_function_labels_distinct(front, label);
        lemma_local_labels(f.ir);
        lemma_label_numbers(front);
        assert(is_symbol(fns[n].name));
        // The labels of the last function differ from each other.
        assert forall|i: int, j: int| 0 <= i < b.len() && 0 <= j < b.len() && i != j implies b[i]
            != b[j] by {
            if 1 <= i <= locals.len() {
                assert(b[i] == local_label(numbers[i - 1]));
            }
            if 1 <= j <= locals.len() {
                assert(b[j] == local_label(numbers[j - 1]));
            }
            let ni = if 1 <= i <= locals.len() {
                numbers[i - 1]
            } else {
                0
            };
            let nj = if 1 <= j <= locals.len() {
                numbers[j - 1]
            } else {
                0
            };
            lemma_label_classes(ni, label + n, f.name);
            lemma_label_classes(nj, label + n, f.name);
            lemma_label_classes(ni, nj, f.name);
        }
        // They differ from the labels of the functions before it.
        assert forall|i: int, j: int| 0 <= i < a.len() && 0 <= j < b.len() implies a[i] != b[j] by {
            let x = a[i];
            assert(from_functions(x, front, label));
            let nj = if 1 <= j <= locals.len() {
                numbers[j - 1]
            } else {
                0
            };
            if 1 <= j <= locals.len() {
                assert(b[j] == local_label(numbers[j - 1]));
            }
            if exists|k: int| 0 <= k < front.len() && x == #[trigger] front[k].name {
                let k = choose|k: int| 0 <= k < front.len() && x == #[trigger] front[k].name;
                assert(function_names(fns)[k] == x);
                assert(function_names(fns)[n] == f.name);
                assert(is_symbol(front[k].name));
                lemma_label_classes(nj, label + n, x);
            } else if exists|m: int|
                0 <= m < label_numbers(front).len() && x == local_label(
                    #[trigger] label_numbers(front)[m],
                ) {
                let m = choose|m: int|
                    0 <= m < label_numbers(front).len() && x == local_label(
                        #[trigger] label_numbers(front)[m],
                    );
                let nm = label_numbers(front)[m];
                lemma_label_classes(nm, label + n, f.name);
                lemma_label_classes(nm, nj, f.name);
                if 1 <= j <= locals.len() {
                    assert(label_numbers(front)[m] != numbers[j - 1]);
                }
            } else {
                let e = choose|e: int| 0 <= e < front.len() && x == #[trigger] end_label(label + e);
                lemma_label_classes(nj, label + e, f.name);
                lemma_label_classes(label + e, label + n, f.name);
            }
        }
        vstd::seq_lib::lemma_no_dup_in_concat(a, b);
        // Every label is one that the functions may define.
        assert forall|i: int| 0 <= i < (a + b).len() implies from_functions(
            #[trigger] (a + b)[i],
            fns,
            label,
        ) by {
            if i < a.len() {
                assert(from_functions(a[i], front, label));
                lemma_from_more_functions(a[i], fns, label);
            } else {
                let j = i - a.len();
                if j == 0 {
                    assert(b[j] == fns[n].name);
                } else if j <= locals.len() {
                    let at = label_numbers(front).len() + j - 1;
                    assert(label_numbers(fns)[at] == numbers[j - 1]);
                    assert(b[j] == local_label(label_numbers(fns)[at]));
                } else {
                    assert(b[j] == end_label(label + n));
                }
            }
        }
    }
}

/// The labels of a program that keeps the rules on names differ from each
/// other, over all of its output.
pub proof fn lemma_labels_distinct(globals: Seq<Var>, fns: Seq<FunctionView>, label: int)
    requires
        label >= 0,
        well_named(globals, fns),
    ensures
        labels(program_lines(globals, fns, label)).no_duplicates(),
{
    let g = global_names(globals);
    let names = g + function_names(fns);
    let fl = function_labels(fns, label);
    lemma_program_labels(globals, fns, label);
    lemma_split_no_duplicates(g, function_names(fns));
    assert forall|k: int| 0 <= k < fns.len() implies is_symbol(#[trigger] fns[k].name) by {
        assert(names[g.len() + k] == fns[k].name);
    }
    lemma_function_labels_distinct(fns, label);
    lemma_label_numbers(fns);
    assert forall|i: int, j: int| 0 <= i < g.len() && 0 <= j < fl.len() implies g[i] != fl[j] by {
        let x = fl[j];
        assert(from_functions(x, fns, label));
        assert(names[i] == g[i]);
        assert(is_symbol(g[i]));
        if exists|k: int| 0 <= k < fns.len() && x == #[trigger] fns[k].name {
            let k = choose|k: int| 0 <= k < fns.len() && x == #[trigger] fns[k].name;
            assert(function_names(fns)[k] == x);
        } else if exists|m: int|
            0 <= m < label_numbers(fns).len() && x == local_label(
                #[trigger] label_numbers(fns)[m],
            ) {
            let m = choose|m: int|
                0 <= m < label_numbers(fns).len() && x == local_label(
                    #[trigger] label_numbers(fns)[m],
                );
            lemma_label_classes(label_numbers(fns)[m], 0, g[i]);
        } else {
            let e = choose|e: int| 0 <= e < fns.len() && x == #[trigger] end_label(label + e);
            lemma_label_classes(0, label + e, g[i]);
        }
    }
    vstd::seq_lib::lemma_no_dup_in_concat(g, fl);
}

} // verus!
