//! FileResolver: picks the single best environment-description file among the
//! entries of a directory, under the priority order `shell.nix`, then
//! `default.nix`, then case-sensitive lexicographic order of the name.

use vstd::prelude::*;
use vstd::string::*;

use crate::strings::{is_suffix, lex_le, lemma_lex_le_total, lemma_lex_le_trans, str_eq, str_le,
    has_suffix};

verus! {

pub open spec fn nix_ext() -> Seq<char> {
    seq!['.', 'n', 'i', 'x']
}

pub open spec fn shell_nix() -> Seq<char> {
    seq!['s', 'h', 'e', 'l', 'l', '.', 'n', 'i', 'x']
}

pub open spec fn default_nix() -> Seq<char> {
    seq!['d', 'e', 'f', 'a', 'u', 'l', 't', '.', 'n', 'i', 'x']
}

/// A candidate name: carries the designated extension behind a nonempty stem,
/// so a bare `.nix` dotfile does not qualify.
pub open spec fn is_nix_name(s: Seq<char>) -> bool {
    s.len() > nix_ext().len() && is_suffix(nix_ext(), s)
}

/// The priority order of the resolver: `shell.nix` before `default.nix`
/// before everything else in lexicographic order.
pub open spec fn name_le(a: Seq<char>, b: Seq<char>) -> bool {
    if a == shell_nix() {
        true
    } else if b == shell_nix() {
        false
    } else if a == default_nix() {
        true
    } else if b == default_nix() {
        false
    } else {
        lex_le(a, b)
    }
}

/// The name the resolver must return for a directory listing: the least
/// candidate under `name_le`, or `None` where no name qualifies.
pub open spec fn best_nix(names: Seq<Seq<char>>) -> Option<Seq<char>>
    decreases names.len(),
{
    if names.len() == 0 {
        None
    } else {
        let rest = best_nix(names.drop_first());
        if !is_nix_name(names[0]) {
            rest
        } else {
            match rest {
                None => Some(names[0]),
                Some(b) => if name_le(names[0], b) {
                    Some(names[0])
                } else {
                    Some(b)
                },
            }
        }
    }
}

pub proof fn lemma_name_le_total(a: Seq<char>, b: Seq<char>)
    ensures
        name_le(a, b) || name_le(b, a),
{
    lemma_lex_le_total(a, b);
}

pub proof fn lemma_name_le_trans(a: Seq<char>, b: Seq<char>, c: Seq<char>)
    requires
        name_le(a, b),
        name_le(b, c),
    ensures
        name_le(a, c),
{
    if a != shell_nix() && c != shell_nix() && a != default_nix() && c != default_nix() {
        if b == shell_nix() || b == default_nix() {
        } else {
            lemma_lex_le_trans(a, b, c);
        }
    }
}

/// What `best_nix` returns: absence exactly when no candidate exists, else a
/// least candidate from the listing.
pub proof fn lemma_best_nix_characterization(names: Seq<Seq<char>>)
    ensures
        best_nix(names) is None <==> (forall|i: int|
            0 <= i < names.len() ==> !is_nix_name(#[trigger] names[i])),
        best_nix(names) matches Some(m) ==> names.contains(m) && is_nix_name(m) && (forall|i: int|
            0 <= i < names.len() && is_nix_name(#[trigger] names[i]) ==> name_le(m, names[i])),
    decreases names.len(),
{
    if names.len() != 0 {
        lemma_best_nix_characterization(names.drop_first());
        let rest = best_nix(names.drop_first());
        if best_nix(names) is None {
            assert forall|i: int| 0 <= i < names.len() implies !is_nix_name(
                #[trigger] names[i],
            ) by {
                if i > 0 {
                    assert(!is_nix_name(names.drop_first()[i - 1]));
                }
            }
        }
        if best_nix(names) is Some {
            let m = best_nix(names)->Some_0;
            if rest is Some {
                let b = rest->Some_0;
                assert(names.drop_first().contains(b));
                let wb = choose|k: int|
                    0 <= k < names.drop_first().len() && names.drop_first()[k] == b;
                assert(names[wb + 1] == b);
                assert(names.contains(b));
            }
            assert(names.contains(m)) by {
                if is_nix_name(names[0]) && (rest is None || name_le(names[0], rest->Some_0)) {
                    assert(names[0] == m);
                }
            }
            assert forall|i: int|
                0 <= i < names.len() && is_nix_name(#[trigger] names[i]) implies name_le(
                m,
                names[i],
            ) by {
                if i == 0 {
                    match rest {
                        None => {
                            assert(m == names[0]);
                            lemma_name_le_total(m, m);
                        },
                        Some(b) => {
                            if name_le(names[0], b) {
                                assert(m == names[0]);
                                lemma_name_le_total(m, m);
                            } else {
                                assert(m == b);
                                lemma_name_le_total(names[0], b);
                            }
                        },
                    }
                } else {
                    assert(names.drop_first()[i - 1] == names[i]);
                    let bb = rest->Some_0;
                    assert(name_le(bb, names[i]));
                    if is_nix_name(names[0]) && name_le(names[0], bb) {
                        lemma_name_le_trans(names[0], bb, names[i]);
                    }
                }
            }
        }
    }
}

/// Decides `is_nix_name`.
pub fn is_nix_file_name(name: &str) -> (r: bool)
    ensures
        r == is_nix_name(name@),
{
    proof {
        reveal_strlit(".nix");
        assert(".nix"@ =~= nix_ext());
    }
    name.unicode_len() > 4 && has_suffix(name, ".nix")
}

/// Decides the priority order `name_le`.
pub fn name_le_exec(a: &str, b: &str) -> (r: bool)
    ensures
        r == name_le(a@, b@),
{
    proof {
        reveal_strlit("shell.nix");
        reveal_strlit("default.nix");
        assert("shell.nix"@ =~= shell_nix());
        assert("default.nix"@ =~= default_nix());
    }
    if str_eq(a, "shell.nix") {
        true
    } else if str_eq(b, "shell.nix") {
        false
    } else if str_eq(a, "default.nix") {
        true
    } else if str_eq(b, "default.nix") {
        false
    } else {
        str_le(a, b)
    }
}

/// FileResolver: given the names of the regular files of a directory, returns
/// the best candidate under the priority order, or absence where none
/// qualifies. The surrounding application lists the directory (treating an
/// unreadable one as empty) and joins the returned name back onto its path.
pub fn find_nix_file(names: &Vec<String>) -> (best: Option<String>)
    ensures
        match best {
            Some(b) => best_nix(names.deep_view()) == Some(b@),
            None => best_nix(names.deep_view()) is None,
        },
        best is None <==> (forall|i: int|
            0 <= i < names.deep_view().len() ==> !is_nix_name(#[trigger] names.deep_view()[i])),
        best matches Some(b) ==> names.deep_view().contains(b@) && is_nix_name(b@) && (forall|
            i: int,
        |
            0 <= i < names.deep_view().len() && is_nix_name(#[trigger] names.deep_view()[i])
                ==> name_le(b@, names.deep_view()[i])),
{
    proof {
        lemma_best_nix_characterization(names.deep_view());
    }
    let ghost dv = names.deep_view();
    let mut best: Option<String> = None;
    let mut i: usize = names.len();
    proof {
        assert(dv.skip(names@.len() as int) =~= Seq::<Seq<char>>::empty());
    }
    while i > 0
        invariant
            i <= names@.len(),
            dv == names.deep_view(),
            dv.len() == names@.len(),
            match best {
                Some(b) => best_nix(dv.skip(i as int)) == Some(b@),
                None => best_nix(dv.skip(i as int)) is None,
            },
        decreases i,
    {
        i -= 1;
        let name = &names[i];
        proof {
            assert(dv.skip(i as int).drop_first() =~= dv.skip(i + 1));
            assert(dv.skip(i as int)[0] == dv[i as int]);
            assert(dv[i as int] == names@[i as int]@);
        }
        if is_nix_file_name(name.as_str()) {
            match &best {
                None => {
                    best = Some(name.clone());
                },
                Some(b) => {
                    if name_le_exec(name.as_str(), b.as_str()) {
                        best = Some(name.clone());
                    }
                },
            }
        }
    }
    proof {
        assert(dv.skip(0) =~= dv);
    }
    best
}

/// A listing that holds `shell.nix` always resolves to `shell.nix`.
pub proof fn lemma_shell_nix_wins(names: Seq<Seq<char>>)
    requires
        names.contains(shell_nix()),
    ensures
        best_nix(names) == Some(shell_nix()),
{
    assert(is_nix_name(shell_nix())) by {
        assert(shell_nix().subrange(5, 9) =~= nix_ext());
    }
    lemma_best_nix_characterization(names);
    let m = best_nix(names)->Some_0;
    let w = choose|i: int| 0 <= i < names.len() && names[i] == shell_nix();
    assert(is_nix_name(names[w]));
    assert(name_le(m, names[w]));
}

/// Without `shell.nix`, a listing that holds `default.nix` resolves to it.
pub proof fn lemma_default_nix_wins(names: Seq<Seq<char>>)
    requires
        names.contains(default_nix()),
        !names.contains(shell_nix()),
    ensures
        best_nix(names) == Some(default_nix()),
{
    assert(is_nix_name(default_nix())) by {
        assert(default_nix().subrange(7, 11) =~= nix_ext());
    }
    lemma_best_nix_characterization(names);
    let m = best_nix(names)->Some_0;
    let w = choose|i: int| 0 <= i < names.len() && names[i] == default_nix();
    assert(is_nix_name(names[w]));
    assert(name_le(m, names[w]));
    assert(names.contains(m));
    assert(m != shell_nix());
}

/// Without the two special names, the resolver returns the lexicographically
/// least candidate.
pub proof fn lemma_lex_least_wins(names: Seq<Seq<char>>)
    requires
        !names.contains(shell_nix()),
        !names.contains(default_nix()),
        exists|i: int| 0 <= i < names.len() && is_nix_name(#[trigger] names[i]),
    ensures
        best_nix(names) matches Some(m) && names.contains(m) && is_nix_name(m) && (forall|i: int|
            0 <= i < names.len() && is_nix_name(#[trigger] names[i]) ==> lex_le(m, names[i])),
{
    lemma_best_nix_characterization(names);
    let m = best_nix(names)->Some_0;
    assert(names.contains(m));
    assert(m != shell_nix() && m != default_nix());
    assert forall|i: int|
        0 <= i < names.len() && is_nix_name(#[trigger] names[i]) implies lex_le(m, names[i]) by {
        assert(names[i] != shell_nix() && names[i] != default_nix());
        assert(name_le(m, names[i]));
    }
}

/// A listing without a candidate name resolves to absence; an empty directory
/// or one with no matching extension is such a listing.
pub proof fn lemma_no_candidate_absent(names: Seq<Seq<char>>)
    requires
        forall|i: int| 0 <= i < names.len() ==> !is_nix_name(#[trigger] names[i]),
    ensures
        best_nix(names) is None,
{
    lemma_best_nix_characterization(names);
}

} // verus!
