//! Where the real Windows hosts file lives, and the expansion of the
//! registry's `%VAR%` references that locating it needs.
//!
//! The service reads the registry and the environment and writes the file
//! (atomically); the section itself is managed by `hosts`.

use vstd::prelude::*;
use crate::paths::{hosts_path as default_hosts_path, join, join_spec};
use crate::text::{
    ascii_lower, ascii_lower_vec, chars_eq, chars_of, find_char, find_char_exec, push_all,
    slice_chars, string_of,
};

verus! {

/// The value of environment variable `name` in `vars`: the first entry whose
/// name matches without regard to ASCII case (as Windows compares them), or
/// empty when there is none.
pub open spec fn env_value(vars: Seq<(Seq<char>, Seq<char>)>, name: Seq<char>) -> Seq<char>
    decreases vars.len(),
{
    if vars.len() == 0 {
        Seq::empty()
    } else if ascii_lower(vars[0].0) == ascii_lower(name) {
        vars[0].1
    } else {
        env_value(vars.drop_first(), name)
    }
}

/// `s` with each `%NAME%` reference replaced by the variable's value, left
/// to right; an unpaired `%` and everything after it is kept as it is, and
/// substituted values are never expanded again.
pub open spec fn expand_spec(s: Seq<char>, vars: Seq<(Seq<char>, Seq<char>)>) -> Seq<char>
    decreases s.len(),
{
    match find_char(s, '%') {
        None => s,
        Some(a) => {
            if 0 <= a < s.len() {
                match find_char(s.skip(a + 1), '%') {
                    None => s,
                    Some(b) => {
                        if 0 <= b < s.len() - a - 1 {
                            s.take(a) + env_value(vars, s.subrange(a + 1, a + 1 + b))
                                + expand_spec(s.skip(a + b + 2), vars)
                        } else {
                            s
                        }
                    },
                }
            } else {
                s
            }
        },
    }
}

/// The environment as values.
pub open spec fn vars_view(vars: Seq<(String, String)>) -> Seq<(Seq<char>, Seq<char>)> {
    vars.map_values(|p: (String, String)| (p.0@, p.1@))
}

fn lookup_var(vars: &Vec<(String, String)>, name: &Vec<char>) -> (r: Vec<char>)
    ensures
        r@ == env_value(vars_view(vars@), name@),
{
    let ghost vv = vars_view(vars@);
    let key = ascii_lower_vec(name);
    let mut i: usize = 0;
    assert(vv.skip(0) =~= vv);
    while i < vars.len()
        invariant
            i <= vars.len(),
            vv == vars_view(vars@),
            key@ == ascii_lower(name@),
            env_value(vv, name@) == env_value(vv.skip(i as int), name@),
        decreases vars.len() - i,
    {
        let ghost rest = vv.skip(i as int);
        assert(rest[0] == (vars@[i as int].0@, vars@[i as int].1@));
        assert(rest.drop_first() =~= vv.skip(i + 1));
        let k = ascii_lower_vec(&chars_of(vars[i].0.as_str()));
        if chars_eq(&k, &key) {
            return chars_of(vars[i].1.as_str());
        }
        i += 1;
    }
    assert(vv.skip(i as int) =~= Seq::<(Seq<char>, Seq<char>)>::empty());
    Vec::new()
}

/// Expand `%VAR%` references in a registry path (`DataBasePath` is a
/// `REG_EXPAND_SZ`), looking variables up in `vars`. Unknown variables
/// expand to nothing.
pub fn expand_env(input: &str, vars: &Vec<(String, String)>) -> (r: String)
    ensures
        r@ == expand_spec(input@, vars_view(vars@)),
{
    let ghost vv = vars_view(vars@);
    let v = chars_of(input);
    let mut out: Vec<char> = Vec::new();
    let mut i: usize = 0;
    let mut done = false;
    assert(v@.skip(0) =~= v@);
    while !done
        invariant
            i <= v.len(),
            v@ == input@,
            vv == vars_view(vars@),
            !done ==> out@ + expand_spec(v@.skip(i as int), vv) == expand_spec(v@, vv),
            done ==> out@ == expand_spec(v@, vv),
        decreases v.len() - i, if done {
            0int
        } else {
            1int
        },
    {
        let rest = slice_chars(&v, i, v.len());
        assert(rest@ =~= v@.skip(i as int));
        match find_char_exec(&rest, '%') {
            None => {
                push_all(&mut out, &rest);
                done = true;
            },
            Some(a) => {
                let after = slice_chars(&rest, a + 1, rest.len());
                assert(after@ =~= rest@.skip(a + 1));
                match find_char_exec(&after, '%') {
                    None => {
                        push_all(&mut out, &rest);
                        done = true;
                    },
                    Some(b) => {
                        let head = slice_chars(&rest, 0, a);
                        let name = slice_chars(&rest, a + 1, a + 1 + b);
                        assert(head@ =~= rest@.take(a as int));
                        assert(name@ =~= rest@.subrange(a + 1, a + 1 + b));
                        let val = lookup_var(vars, &name);
                        let ghost before = out@;
                        push_all(&mut out, &head);
                        push_all(&mut out, &val);
                        assert(rest@.skip(a + b + 2) =~= v@.skip(i + a + b + 2));
                        i = i + a + b + 2;
                        assert(out@ + expand_spec(v@.skip(i as int), vv) =~= before + expand_spec(
                            rest@,
                            vv,
                        ));
                    },
                }
            },
        }
    }
    string_of(&out)
}

/// The hosts file: `hosts` inside the registry's `DataBasePath` (expanded)
/// where that value is present, else the default under `%SystemRoot%`.
pub fn hosts_path(database_path: Option<&str>, vars: &Vec<(String, String)>, system_root: &str) -> (r:
    String)
    ensures
        r@ == match database_path {
            Some(raw) => join_spec(expand_spec(raw@, vars_view(vars@)), "hosts"@),
            None => join_spec(system_root@, "System32\\drivers\\etc\\hosts"@),
        },
{
    match database_path {
        Some(raw) => {
            let dir = expand_env(raw, vars);
            join(dir.as_str(), "hosts")
        },
        None => default_hosts_path(system_root),
    }
}

} // verus!
