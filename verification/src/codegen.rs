//! Generated program text: the explicit-instantiation lines that select one
//! variant of a templated kernel.

use vstd::prelude::*;

use crate::text::{join, str_views};

verus! {

/// The line that instantiates `func<args>` under the name `name`.
pub open spec fn template_def(name: Seq<char>, func: Seq<char>, args: Seq<Seq<char>>) -> Seq<char> {
    "\ntemplate [[host_name(\""@ + name + "\")]] [[kernel]] decltype("@ + func + "<"@ + join(
        args,
        ", "@,
    ) + ">) "@ + func + "<"@ + join(args, ", "@) + ">;\n"@
}

/// The slices, each after the first preceded by the separator.
pub fn join_strs(v: &[&str], sep: &str) -> (s: String)
    ensures
        s@ == join(str_views(v@), sep@),
{
    let mut s = String::new();
    let mut i: usize = 0;
    assert(s@ =~= join(str_views(v@).take(0), sep@));
    while i < v.len()
        invariant
            i <= v.len(),
            s@ == join(str_views(v@).take(i as int), sep@),
        decreases v.len() - i,
    {
        let ghost after = str_views(v@).take(i + 1);
        assert(after.drop_last() =~= str_views(v@).take(i as int));
        if i > 0 {
            s.append(sep);
        }
        s.append(v[i]);
        assert(s@ =~= join(after, sep@));
        i += 1;
    }
    assert(str_views(v@).take(v@.len() as int) =~= str_views(v@));
    s
}

/// The line that instantiates `func<args>` under the name `name`.
pub fn builtin_template_def(name: &str, func: &str, args: &[&str]) -> (s: String)
    ensures
        s@ == template_def(name@, func@, str_views(args@)),
{
    let joined = join_strs(args, ", ");
    let mut s = "\ntemplate [[host_name(\"".to_owned();
    s.append(name);
    s.append("\")]] [[kernel]] decltype(");
    s.append(func);
    s.append("<");
    s.append(&joined);
    s.append(">) ");
    s.append(func);
    s.append("<");
    s.append(&joined);
    s.append(">;\n");
    s
}

/// The instantiation line of a template of one argument.
pub fn inst1(name: &str, func: &str, a: &str) -> (s: String)
    ensures
        s@ == template_def(name@, func@, seq![a@]),
{
    assert(str_views([a]@) =~= seq![a@]);
    builtin_template_def(name, func, &[a])
}

/// The instantiation line of a template of two arguments.
pub fn inst2(name: &str, func: &str, a: &str, b: &str) -> (s: String)
    ensures
        s@ == template_def(name@, func@, seq![a@, b@]),
{
    assert(str_views([a, b]@) =~= seq![a@, b@]);
    builtin_template_def(name, func, &[a, b])
}

/// The instantiation line of a template of three arguments.
pub fn inst3(name: &str, func: &str, a: &str, b: &str, c: &str) -> (s: String)
    ensures
        s@ == template_def(name@, func@, seq![a@, b@, c@]),
{
    assert(str_views([a, b, c]@) =~= seq![a@, b@, c@]);
    builtin_template_def(name, func, &[a, b, c])
}

/// The instantiation line of a template of four arguments.
pub fn inst4(name: &str, func: &str, a: &str, b: &str, c: &str, d: &str) -> (s: String)
    ensures
        s@ == template_def(name@, func@, seq![a@, b@, c@, d@]),
{
    assert(str_views([a, b, c, d]@) =~= seq![a@, b@, c@, d@]);
    builtin_template_def(name, func, &[a, b, c, d])
}

/// The instantiation line of a template of five arguments.
pub fn inst5(name: &str, func: &str, a: &str, b: &str, c: &str, d: &str, e: &str) -> (s: String)
    ensures
        s@ == template_def(name@, func@, seq![a@, b@, c@, d@, e@]),
{
    assert(str_views([a, b, c, d, e]@) =~= seq![a@, b@, c@, d@, e@]);
    builtin_template_def(name, func, &[a, b, c, d, e])
}

/// The instantiation line of a template of six arguments.
pub fn inst6(name: &str, func: &str, a: &str, b: &str, c: &str, d: &str, e: &str, f: &str) -> (s: String)
    ensures
        s@ == template_def(name@, func@, seq![a@, b@, c@, d@, e@, f@]),
{
    assert(str_views([a, b, c, d, e, f]@) =~= seq![a@, b@, c@, d@, e@, f@]);
    builtin_template_def(name, func, &[a, b, c, d, e, f])
}

} // verus!
