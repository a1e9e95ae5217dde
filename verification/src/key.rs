//! Keys for expressions: a flat form that is the same for two expressions just where they
//! are the same, for use in a hash map.
use vstd::prelude::*;

use crate::expr::{ExprModel, Expression, FnModel, ScalarFn};

verus! {

/// A text as numbers above zero.
pub open spec fn text_key(text: Seq<char>) -> Seq<u64> {
    Seq::new(text.len(), |i: int| (text[i] as u64 + 1) as u64)
}

/// Bytes as numbers above zero.
pub open spec fn bytes_key(bytes: Seq<u8>) -> Seq<u64> {
    Seq::new(bytes.len(), |i: int| (bytes[i] + 1) as u64)
}

/// A flag as a number.
pub open spec fn flag_key(flag: bool) -> u64 {
    if flag {
        1
    } else {
        0
    }
}

impl FnModel {
    /// The key of a function: its name and options, each closed by a zero, and its properties.
    pub open spec fn key(self) -> Seq<u64> {
        text_key(self.id) + seq![0u64] + bytes_key(self.options) + seq![0u64] + seq![
            flag_key(self.negative_cost),
            flag_key(self.fallible),
            flag_key(self.null_sensitive),
        ]
    }
}

impl ExprModel {
    /// The key of an expression: a zero for the column; for a call a one, the function's key
    /// and the children's keys.
    pub open spec fn key(self) -> Seq<u64>
        decreases self,
    {
        match self {
            ExprModel::Root => seq![0u64],
            ExprModel::Call { function, children } => seq![1u64] + function.key() + Self::list_key(
                children,
            ),
        }
    }

    /// The keys of a list: a one before each, and a zero at the end.
    pub open spec fn list_key(es: Seq<ExprModel>) -> Seq<u64>
        decreases es,
    {
        if es.len() == 0 {
            seq![0u64]
        } else {
            seq![1u64] + es[0].key() + Self::list_key(es.subrange(1, es.len() as int))
        }
    }
}

/// Numbers above zero that are closed by a zero can be told from what follows.
proof fn lemma_closed_by_zero(a: Seq<u64>, b: Seq<u64>, s: Seq<u64>, t: Seq<u64>)
    requires
        forall|i: int| 0 <= i < a.len() ==> #[trigger] a[i] != 0,
        forall|i: int| 0 <= i < b.len() ==> #[trigger] b[i] != 0,
        a + seq![0u64] + s == b + seq![0u64] + t,
    ensures
        a == b,
        s == t,
{
    let x = a + seq![0u64] + s;
    let y = b + seq![0u64] + t;
    assert(x.len() == a.len() + 1 + s.len() && y.len() == b.len() + 1 + t.len());
    assert(x[a.len() as int] == 0 && y[b.len() as int] == 0);
    if a.len() < b.len() {
        assert(y[a.len() as int] == b[a.len() as int]);
    } else if b.len() < a.len() {
        assert(x[b.len() as int] == a[b.len() as int]);
    }
    assert forall|i: int| 0 <= i < a.len() implies a[i] == b[i] by {
        assert(x[i] == a[i] && y[i] == b[i]);
    }
    assert forall|i: int| 0 <= i < s.len() implies s[i] == t[i] by {
        assert(x[a.len() + 1 + i] == s[i] && y[b.len() + 1 + i] == t[i]);
    }
    assert(a =~= b);
    assert(s =~= t);
}

proof fn lemma_char_key(c: char)
    ensures
        (c as u64 + 1) as u64 == c as int + 1,
        c as int >= 0,
{
}

proof fn lemma_text_key(a: Seq<char>, b: Seq<char>)
    ensures
        forall|i: int| 0 <= i < a.len() ==> #[trigger] text_key(a)[i] != 0,
        text_key(a) == text_key(b) ==> a == b,
{
    assert forall|i: int| 0 <= i < a.len() implies #[trigger] text_key(a)[i] != 0 by {
        lemma_char_key(a[i]);
    }
    if text_key(a) == text_key(b) {
        assert(text_key(a).len() == a.len() && text_key(b).len() == b.len());
        assert forall|i: int| 0 <= i < a.len() implies a[i] == b[i] by {
            assert(text_key(a)[i] == text_key(b)[i]);
            lemma_char_key(a[i]);
            lemma_char_key(b[i]);
        }
        assert(a =~= b);
    }
}

proof fn lemma_bytes_key(a: Seq<u8>, b: Seq<u8>)
    ensures
        forall|i: int| 0 <= i < a.len() ==> #[trigger] bytes_key(a)[i] != 0,
        bytes_key(a) == bytes_key(b) ==> a == b,
{
    if bytes_key(a) == bytes_key(b) {
        assert(bytes_key(a).len() == a.len() && bytes_key(b).len() == b.len());
        assert forall|i: int| 0 <= i < a.len() implies a[i] == b[i] by {
            assert(bytes_key(a)[i] == bytes_key(b)[i]);
        }
        assert(a =~= b);
    }
}

/// The key of a function can be told from what follows, and no other function has it.
proof fn lemma_fn_key(a: FnModel, b: FnModel, s: Seq<u64>, t: Seq<u64>)
    requires
        a.key() + s == b.key() + t,
    ensures
        a == b,
        s == t,
{
    let flags_a = seq![
        flag_key(a.negative_cost),
        flag_key(a.fallible),
        flag_key(a.null_sensitive),
    ];
    let flags_b = seq![
        flag_key(b.negative_cost),
        flag_key(b.fallible),
        flag_key(b.null_sensitive),
    ];
    let rest_a = bytes_key(a.options) + seq![0u64] + (flags_a + s);
    let rest_b = bytes_key(b.options) + seq![0u64] + (flags_b + t);
    assert(a.key() + s =~= text_key(a.id) + seq![0u64] + rest_a);
    assert(b.key() + t =~= text_key(b.id) + seq![0u64] + rest_b);
    lemma_text_key(a.id, b.id);
    lemma_text_key(b.id, a.id);
    lemma_closed_by_zero(text_key(a.id), text_key(b.id), rest_a, rest_b);
    lemma_bytes_key(a.options, b.options);
    lemma_bytes_key(b.options, a.options);
    lemma_closed_by_zero(
        bytes_key(a.options),
        bytes_key(b.options),
        flags_a + s,
        flags_b + t,
    );
    let x = flags_a + s;
    let y = flags_b + t;
    assert(x[0] == flags_a[0] && y[0] == flags_b[0]);
    assert(x[1] == flags_a[1] && y[1] == flags_b[1]);
    assert(x[2] == flags_a[2] && y[2] == flags_b[2]);
    assert(s =~= x.subrange(3, x.len() as int));
    assert(t =~= y.subrange(3, y.len() as int));
}

/// The key of an expression can be told from what follows, and no other expression has it.
proof fn lemma_key_prefix(a: ExprModel, b: ExprModel, s: Seq<u64>, t: Seq<u64>)
    requires
        a.key() + s == b.key() + t,
    ensures
        a == b,
        s == t,
    decreases a,
{
    assert((a.key() + s)[0] == a.key()[0]);
    assert((b.key() + t)[0] == b.key()[0]);
    match a {
        ExprModel::Root => {
            assert(b is Root);
            assert(s =~= (a.key() + s).subrange(1, 1int + s.len()));
            assert(t =~= (b.key() + t).subrange(1, 1int + t.len()));
            assert((a.key() + s).len() == 1 + s.len());
            assert((b.key() + t).len() == 1 + t.len());
        },
        ExprModel::Call { function, children } => {
            assert(b is Call);
            let rest_a = ExprModel::list_key(children) + s;
            let rest_b = ExprModel::list_key(b->children) + t;
            let x = function.key() + rest_a;
            let y = b->function.key() + rest_b;
            assert(a.key() + s =~= seq![1u64] + x);
            assert(b.key() + t =~= seq![1u64] + y);
            assert(x =~= (seq![1u64] + x).subrange(1, 1int + x.len()));
            assert(y =~= (seq![1u64] + y).subrange(1, 1int + y.len()));
            assert((seq![1u64] + x).len() == 1 + x.len());
            assert((seq![1u64] + y).len() == 1 + y.len());
            lemma_fn_key(function, b->function, rest_a, rest_b);
            lemma_list_key_prefix(children, b->children, s, t);
        },
    }
}

proof fn lemma_list_key_prefix(a: Seq<ExprModel>, b: Seq<ExprModel>, s: Seq<u64>, t: Seq<u64>)
    requires
        ExprModel::list_key(a) + s == ExprModel::list_key(b) + t,
    ensures
        a == b,
        s == t,
    decreases a,
{
    let u = ExprModel::list_key(a) + s;
    let v = ExprModel::list_key(b) + t;
    assert(u[0] == ExprModel::list_key(a)[0]);
    assert(v[0] == ExprModel::list_key(b)[0]);
    if a.len() == 0 {
        assert(b.len() == 0);
        assert(s =~= u.subrange(1, u.len() as int));
        assert(t =~= v.subrange(1, v.len() as int));
        assert(a =~= b);
    } else {
        assert(b.len() > 0);
        let more_a = a.subrange(1, a.len() as int);
        let more_b = b.subrange(1, b.len() as int);
        let x = a[0].key() + (ExprModel::list_key(more_a) + s);
        let y = b[0].key() + (ExprModel::list_key(more_b) + t);
        assert(u =~= seq![1u64] + x);
        assert(v =~= seq![1u64] + y);
        assert(x =~= u.subrange(1, u.len() as int));
        assert(y =~= v.subrange(1, v.len() as int));
        lemma_key_prefix(
            a[0],
            b[0],
            ExprModel::list_key(more_a) + s,
            ExprModel::list_key(more_b) + t,
        );
        lemma_list_key_prefix(more_a, more_b, s, t);
        assert(a =~= seq![a[0]] + more_a);
        assert(b =~= seq![b[0]] + more_b);
    }
}

/// Two expressions have the same key just where they are the same.
pub proof fn law_keys_tell_expressions_apart(a: ExprModel, b: ExprModel)
    ensures
        a.key() == b.key() <==> a == b,
{
    if a.key() == b.key() {
        lemma_key_prefix(a, b, Seq::empty(), Seq::empty());
    }
}

fn write_fn_key(function: &ScalarFn, key: &mut Vec<u64>)
    ensures
        final(key)@ == old(key)@ + function@.key(),
{
    let ghost start = key@;
    let text = function.id.as_str();
    let count: usize = text.unicode_len();
    let mut i: usize = 0;
    while i < count
        invariant
            count == text@.len(),
            i <= count,
            key@ == start + text_key(text@).take(i as int),
        decreases count - i,
    {
        key.push(text.get_char(i) as u64 + 1);
        assert(text_key(text@).take(i + 1) =~= text_key(text@).take(i as int).push(
            text_key(text@)[i as int],
        ));
        i += 1;
    }
    key.push(0);
    let ghost named = key@;
    assert(named =~= start + text_key(function.id@) + seq![0u64]);
    let mut j: usize = 0;
    while j < function.options.len()
        invariant
            j <= function.options.len(),
            key@ == named + bytes_key(function.options@).take(j as int),
        decreases function.options.len() - j,
    {
        key.push(function.options[j] as u64 + 1);
        assert(bytes_key(function.options@).take(j + 1) =~= bytes_key(function.options@).take(
            j as int,
        ).push(bytes_key(function.options@)[j as int]));
        j += 1;
    }
    key.push(0);
    key.push(if function.negative_cost { 1 } else { 0 });
    key.push(if function.fallible { 1 } else { 0 });
    key.push(if function.null_sensitive { 1 } else { 0 });
    assert(key@ =~= start + function@.key());
}

fn write_key(expr: &Expression, key: &mut Vec<u64>)
    ensures
        final(key)@ == old(key)@ + expr@.key(),
    decreases expr,
{
    match expr {
        Expression::Root => {
            key.push(0);
            assert(key@ =~= old(key)@ + seq![0u64]);
        },
        Expression::Call { function, children } => {
            let ghost start = key@;
            key.push(1);
            write_fn_key(function, key);
            let ghost called = key@;
            assert(called =~= start + seq![1u64] + function@.key());
            let ghost es = expr@->children;
            let mut i: usize = 0;
            assert(es.subrange(0, es.len() as int) =~= es);
            while i < children.len()
                invariant
                    *expr == (Expression::Call { function: *function, children: *children }),
                    es == expr@->children,
                    i <= children.len(),
                    key@ + ExprModel::list_key(es.subrange(i as int, es.len() as int)) == called
                        + ExprModel::list_key(es),
                decreases children.len() - i,
            {
                assert(es[i as int] == children@[i as int]@);
                let ghost before = key@;
                let ghost rest = es.subrange(i as int, es.len() as int);
                key.push(1);
                write_key(&children[i], key);
                assert(rest.subrange(1, rest.len() as int) =~= es.subrange(
                    i + 1,
                    es.len() as int,
                ));
                assert(before + ExprModel::list_key(rest) =~= key@ + ExprModel::list_key(
                    es.subrange(i + 1, es.len() as int),
                ));
                i += 1;
            }
            key.push(0);
            assert(key@ =~= called + ExprModel::list_key(es));
            assert(key@ =~= start + expr@.key());
        },
    }
}

/// The key of `expr`.
pub(crate) fn expression_key(expr: &Expression) -> (r: Vec<u64>)
    ensures
        r@ == expr@.key(),
{
    let mut key: Vec<u64> = Vec::new();
    write_key(expr, &mut key);
    assert(key@ =~= expr@.key());
    key
}

} // verus!
