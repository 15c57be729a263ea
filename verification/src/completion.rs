//! Rendering of the shell-completion data: one associative-array entry per
//! host, of the form `["host"]="path path ..."`.

use vstd::prelude::*;
use vstd::string::*;

verus! {

/// The parts joined by single spaces.
pub open spec fn join_spaces(parts: Seq<Seq<char>>) -> Seq<char>
    decreases parts.len(),
{
    if parts.len() == 0 {
        Seq::empty()
    } else if parts.len() == 1 {
        parts[0]
    } else {
        parts[0] + seq![' '] + join_spaces(parts.drop_first())
    }
}

/// The rendered entry: `["subcmd"]="value value ..."`.
pub open spec fn rendered_entry(subcmd: Seq<char>, values: Seq<Seq<char>>) -> Seq<char> {
    seq!['[', '"'] + subcmd + seq!['"', ']', '=', '"'] + join_spaces(values) + seq!['"']
}

proof fn lemma_join_spaces_snoc(parts: Seq<Seq<char>>, last: Seq<char>)
    requires
        parts.len() >= 1,
    ensures
        join_spaces(parts.push(last)) == join_spaces(parts) + seq![' '] + last,
    decreases parts.len(),
{
    if parts.len() == 1 {
        let p = parts.push(last);
        assert(p[0] == parts[0]);
        assert(p.drop_first() =~= seq![last]);
        assert(join_spaces(p.drop_first()) == last);
    } else {
        lemma_join_spaces_snoc(parts.drop_first(), last);
        let p = parts.push(last);
        assert(p[0] == parts[0]);
        assert(p.drop_first() =~= parts.drop_first().push(last));
    }
}

/// One completion entry for a host and the paths scanned on it.
pub fn render_template(subcmd: &str, values: &Vec<String>) -> (r: String)
    ensures
        r@ == rendered_entry(subcmd@, values.deep_view()),
{
    proof {
        reveal_strlit("[\"");
        reveal_strlit("\"]=\"");
        reveal_strlit("\"");
        reveal_strlit(" ");
        assert("[\""@ =~= seq!['[', '"']);
        assert("\"]=\""@ =~= seq!['"', ']', '=', '"']);
        assert("\""@ =~= seq!['"']);
        assert(" "@ =~= seq![' ']);
    }
    let ghost dv = values.deep_view();
    let mut joined = String::new();
    let n = values.len();
    let mut i: usize = 0;
    proof {
        assert(dv.take(0) =~= Seq::<Seq<char>>::empty());
    }
    while i < n
        invariant
            i <= n,
            n == values@.len(),
            dv == values.deep_view(),
            dv.len() == n,
            joined@ == join_spaces(dv.take(i as int)),
        decreases n - i,
    {
        if i > 0 {
            joined.append(" ");
        }
        joined.append(values[i].as_str());
        proof {
            reveal_strlit(" ");
            assert(" "@ =~= seq![' ']);
            assert(dv[i as int] == values@[i as int]@);
            if i == 0 {
                assert(dv.take(1) =~= seq![dv[0]]);
            } else {
                assert(dv.take(i as int).len() >= 1);
                lemma_join_spaces_snoc(dv.take(i as int), dv[i as int]);
                assert(dv.take(i + 1) =~= dv.take(i as int).push(dv[i as int]));
            }
        }
        i += 1;
    }
    proof {
        assert(dv.take(n as int) =~= dv);
    }
    let mut r = String::new();
    r.append("[\"");
    r.append(subcmd);
    r.append("\"]=\"");
    r.append(joined.as_str());
    r.append("\"");
    proof {
        assert(r@ =~= rendered_entry(subcmd@, values.deep_view()));
    }
    r
}

} // verus!
