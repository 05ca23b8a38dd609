//! Writes an expression back as fully parenthesised text.

use vstd::prelude::*;

use crate::walker::ast::Expr;
use crate::walker::parsed_token::{binary_op_text, literal_text, logical_op_text, unary_op_text};

verus! {

/// The text of an expression: binary, logical and unary operations in
/// parentheses with their operator, a variable as `var name`, a call as the
/// callee followed by its arguments in parentheses, separated by `, `.
pub open spec fn expr_text(e: Expr) -> Seq<char>
    decreases e, 0nat,
{
    match e {
        Expr::Binary(b) => "("@ + expr_text(b.left) + " "@ + binary_op_text(b.operator.op) + " "@
            + expr_text(b.right) + ")"@,
        Expr::Grouping(g) => "("@ + expr_text(g.expression) + ")"@,
        Expr::LiteralExpr(l) => literal_text(l.value),
        Expr::Unary(u) => "("@ + unary_op_text(u.operator.op) + " "@ + expr_text(u.expression) + ")"@,
        Expr::Variable(v) => "var "@ + v.name.identifier@,
        Expr::Assign(a) => a.name.identifier@ + " = "@ + expr_text(a.value),
        Expr::Logical(l) => "("@ + expr_text(l.left) + " "@ + logical_op_text(l.operator.op) + " "@
            + expr_text(l.right) + ")"@,
        Expr::Call(c) => expr_text(c.callee) + "("@ + args_text(c.arguments@) + ")"@,
        Expr::Get(g) => expr_text(g.object) + "."@ + g.name.identifier@,
        Expr::SetProperty(s) => expr_text(s.object) + "."@ + s.name.identifier@ + " = "@
            + expr_text(s.value),
        Expr::This(_) => "this"@,
        Expr::Super(s) => "super."@ + s.method.identifier@,
    }
}

/// The texts of a list of expressions, separated by `, `.
pub open spec fn args_text(args: Seq<Expr>) -> Seq<char>
    decreases args, 1nat,
{
    if args.len() == 0 {
        Seq::empty()
    } else if args.len() == 1 {
        expr_text(args[0])
    } else {
        args_text(args.subrange(0, args.len() - 1)) + ", "@ + expr_text(args[args.len() - 1])
    }
}

pub(crate) proof fn lemma_argument_decreases(e: Expr, i: int)
    requires
        e is Call,
        0 <= i < e->Call_0.arguments.len(),
    ensures
        decreases_to!(e => e->Call_0.arguments@[i]),
{
    match e {
        Expr::Call(c) => {
            assert(decreases_to!(c.arguments@ => c.arguments@[i]));
        },
        _ => {},
    }
}

fn push_str(out: &mut String, s: &str)
    ensures
        final(out)@ == old(out)@ + s@,
{
    out.append(s);
}

pub fn pretty_print_expr(expr: &Expr) -> (res: String)
    ensures
        res@ == expr_text(*expr),
    decreases expr,
{
    let mut out = String::new();
    match expr {
        Expr::Binary(binary) => {
            push_str(&mut out, "(");
            let l = pretty_print_expr(&binary.left);
            push_str(&mut out, l.as_str());
            push_str(&mut out, " ");
            let op = binary.operator.pretty_print();
            push_str(&mut out, op.as_str());
            push_str(&mut out, " ");
            let r = pretty_print_expr(&binary.right);
            push_str(&mut out, r.as_str());
            push_str(&mut out, ")");
        },
        Expr::Grouping(grouping) => {
            push_str(&mut out, "(");
            let inner = pretty_print_expr(&grouping.expression);
            push_str(&mut out, inner.as_str());
            push_str(&mut out, ")");
        },
        Expr::LiteralExpr(literal) => {
            out = literal.value.pretty_print();
        },
        Expr::Unary(unary) => {
            push_str(&mut out, "(");
            let op = unary.operator.pretty_print();
            push_str(&mut out, op.as_str());
            push_str(&mut out, " ");
            let inner = pretty_print_expr(&unary.expression);
            push_str(&mut out, inner.as_str());
            push_str(&mut out, ")");
        },
        Expr::Variable(variable) => {
            push_str(&mut out, "var ");
            push_str(&mut out, variable.name.identifier());
        },
        Expr::Assign(assign) => {
            push_str(&mut out, assign.name.identifier());
            push_str(&mut out, " = ");
            let v = pretty_print_expr(&assign.value);
            push_str(&mut out, v.as_str());
        },
        Expr::Logical(logical) => {
            push_str(&mut out, "(");
            let l = pretty_print_expr(&logical.left);
            push_str(&mut out, l.as_str());
            push_str(&mut out, " ");
            let op = logical.operator.pretty_print();
            push_str(&mut out, op.as_str());
            push_str(&mut out, " ");
            let r = pretty_print_expr(&logical.right);
            push_str(&mut out, r.as_str());
            push_str(&mut out, ")");
        },
        Expr::Call(call) => {
            let callee = pretty_print_expr(&call.callee);
            push_str(&mut out, callee.as_str());
            push_str(&mut out, "(");
            let mut i: usize = 0;
            let mut args = String::new();
            while i < call.arguments.len()
                invariant
                    i <= call.arguments.len(),
                    *expr == Expr::Call(*call),
                    args@ == args_text(call.arguments@.subrange(0, i as int)),
                decreases call.arguments.len() - i,
            {
                proof {
                    lemma_argument_decreases(*expr, i as int);
                }
                let a = pretty_print_expr(&call.arguments[i]);
                if i > 0 {
                    push_str(&mut args, ", ");
                }
                push_str(&mut args, a.as_str());
                proof {
                    let s = call.arguments@.subrange(0, i + 1);
                    assert(s.subrange(0, s.len() - 1) =~= call.arguments@.subrange(0, i as int));
                    if i == 0 {
                        assert(args@ =~= Seq::<char>::empty() + a@);
                    }
                }
                i = i + 1;
            }
            assert(call.arguments@.subrange(0, call.arguments.len() as int) =~= call.arguments@);
            push_str(&mut out, args.as_str());
            push_str(&mut out, ")");
        },
        Expr::Get(get) => {
            let object = pretty_print_expr(&get.object);
            push_str(&mut out, object.as_str());
            push_str(&mut out, ".");
            push_str(&mut out, get.name.identifier());
        },
        Expr::SetProperty(set) => {
            let object = pretty_print_expr(&set.object);
            push_str(&mut out, object.as_str());
            push_str(&mut out, ".");
            push_str(&mut out, set.name.identifier());
            push_str(&mut out, " = ");
            let v = pretty_print_expr(&set.value);
            push_str(&mut out, v.as_str());
        },
        Expr::This(_) => {
            push_str(&mut out, "this");
        },
        Expr::Super(s) => {
            push_str(&mut out, "super.");
            push_str(&mut out, s.method.identifier());
        },
    }
    proof {
        assert(out@ =~= expr_text(*expr));
    }
    out
}

} // verus!
