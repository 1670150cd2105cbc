use vstd::prelude::*;
use vstd::string::*;

use crate::ops::McpError;
use crate::registry::EnvVars;

verus! {

/// What `str::trim` returns for a string: it depends on the characters alone.
pub uninterp spec fn trim_of(s: Seq<char>) -> Seq<char>;

/// Relies on `str::trim`: leading and trailing whitespace removed, an empty string kept empty.
#[verifier::external_body]
fn trim(s: &str) -> (r: String)
    ensures
        r@ == trim_of(s@),
        s@.len() == 0 ==> r@.len() == 0,
{
    s.trim().to_string()
}

/// The pieces of a string between commas, as `str::split(',')` gives them.
pub open spec fn comma_pieces(s: Seq<char>) -> Seq<Seq<char>>
    decreases s.len(),
{
    if s.len() == 0 {
        seq![Seq::<char>::empty()]
    } else {
        let p = comma_pieces(s.drop_last());
        if s.last() == ',' {
            p.push(Seq::<char>::empty())
        } else {
            p.update(p.len() - 1, p.last().push(s.last()))
        }
    }
}

pub proof fn lemma_comma_pieces_nonempty(s: Seq<char>)
    ensures
        comma_pieces(s).len() >= 1,
    decreases s.len(),
{
    if s.len() > 0 {
        lemma_comma_pieces_nonempty(s.drop_last());
    }
}

/// Reading more of a string only adds pieces after those already closed by a comma.
pub proof fn lemma_comma_pieces_prefix(s: Seq<char>, k: int, m: int)
    requires
        0 <= k <= m <= s.len(),
    ensures
        comma_pieces(s.take(k)).len() <= comma_pieces(s.take(m)).len(),
        forall|j: int|
            0 <= j < comma_pieces(s.take(k)).len() - 1 ==> #[trigger] comma_pieces(s.take(m))[j]
                == comma_pieces(s.take(k))[j],
    decreases m - k,
{
    if m > k {
        lemma_comma_pieces_prefix(s, k, m - 1);
        let t = s.take(m);
        assert(t.drop_last() =~= s.take(m - 1));
        lemma_comma_pieces_nonempty(s.take(m - 1));
    }
}

/// `i` is the position of the first `=` in `p`.
pub open spec fn first_eq_at(p: Seq<char>, i: int) -> bool {
    &&& 0 <= i < p.len()
    &&& p[i] == '='
    &&& forall|j: int| 0 <= j < i ==> p[j] != '='
}

pub open spec fn has_eq(p: Seq<char>) -> bool {
    exists|i: int| 0 <= i < p.len() && p[i] == '='
}

pub open spec fn eq_pos(p: Seq<char>) -> int {
    choose|i: int| first_eq_at(p, i)
}

/// The name of an assignment `name=value`, trimmed.
pub open spec fn env_key(p: Seq<char>) -> Seq<char> {
    trim_of(p.take(eq_pos(p)))
}

/// The value of an assignment `name=value`, trimmed.
pub open spec fn env_value(p: Seq<char>) -> Seq<char> {
    trim_of(p.skip(eq_pos(p) + 1))
}

/// The variables that a list of assignments sets, later ones winning.
pub open spec fn env_of(pieces: Seq<Seq<char>>) -> Map<Seq<char>, Seq<char>>
    decreases pieces.len(),
{
    if pieces.len() == 0 {
        Map::empty()
    } else {
        env_of(pieces.drop_last()).insert(env_key(pieces.last()), env_value(pieces.last()))
    }
}

/// `i` is the first piece that is no assignment.
pub open spec fn first_invalid(pieces: Seq<Seq<char>>, i: int) -> bool {
    &&& 0 <= i < pieces.len()
    &&& !has_eq(pieces[i])
    &&& forall|j: int| 0 <= j < i ==> has_eq(#[trigger] pieces[j])
}

/// Splits one assignment `name=value` at its first `=`, trimming both sides.
pub fn parse_env_pair(piece: &str) -> (r: Option<(String, String)>)
    ensures
        r is None == !has_eq(piece@),
        r matches Some((k, v)) ==> k@ == env_key(piece@) && v@ == env_value(piece@),
{
    let n = piece.unicode_len();
    let mut i: usize = 0;
    while i < n
        invariant
            n == piece@.len(),
            i <= n,
            forall|j: int| 0 <= j < i ==> piece@[j] != '=',
        decreases n - i,
    {
        if piece.get_char(i) == '=' {
            proof {
                assert(first_eq_at(piece@, i as int));
                let e = eq_pos(piece@);
                assert(first_eq_at(piece@, e));
                if e < i {
                    assert(piece@[e] != '=');
                }
                if e > i {
                    assert(piece@[i as int] != '=');
                }
                assert(piece@.subrange(0, i as int) =~= piece@.take(i as int));
                assert(piece@.subrange(i as int + 1, n as int) =~= piece@.skip(i as int + 1));
            }
            let key = trim(piece.substring_char(0, i));
            let value = trim(piece.substring_char(i + 1, n));
            return Some((key, value));
        }
        i = i + 1;
    }
    None
}

/// Parses a comma-separated list of `name=value` assignments; the first piece without `=`
/// is refused.
pub fn parse_env_vars(arg: &str) -> (r: Result<EnvVars, McpError>)
    ensures
        r is Err == exists|i: int| first_invalid(comma_pieces(arg@), i),
        r is Err ==> exists|i: int|
            first_invalid(comma_pieces(arg@), i) && (r->Err_0 matches McpError::InvalidEnvVar(s)
                && s@ == comma_pieces(arg@)[i]),
        r is Ok ==> r->Ok_0.wf() && r->Ok_0.env_map() == env_of(comma_pieces(arg@)),
{
    let n = arg.unicode_len();
    let mut vars = EnvVars::new();
    let mut start: usize = 0;
    let mut i: usize = 0;
    let ghost mut done: Seq<Seq<char>> = Seq::empty();
    proof {
        assert(arg@.take(0) =~= Seq::<char>::empty());
        assert(arg@.subrange(0, 0) =~= Seq::<char>::empty());
        assert(env_of(done) =~= Map::<Seq<char>, Seq<char>>::empty());
    }
    loop
        invariant
            n == arg@.len(),
            start <= i <= n,
            comma_pieces(arg@.take(i as int)) == done.push(arg@.subrange(start as int, i as int)),
            forall|j: int| 0 <= j < done.len() ==> has_eq(#[trigger] done[j]),
            vars.wf(),
            vars.env_map() == env_of(done),
        decreases n - i,
    {
        if i == n || arg.get_char(i) == ',' {
            let piece = arg.substring_char(start, i);
            let ghost pv = piece@;
            match parse_env_pair(piece) {
                None => {
                    proof {
                        let ps = done.push(pv);
                        assert(first_invalid(ps, done.len() as int));
                        if i == n {
                            assert(arg@.take(n as int) =~= arg@);
                        } else {
                            let t = arg@.take(i as int + 1);
                            assert(t.drop_last() =~= arg@.take(i as int));
                            lemma_comma_pieces_prefix(arg@, i as int + 1, n as int);
                            assert(arg@.take(n as int) =~= arg@);
                            let full = comma_pieces(arg@);
                            assert forall|j: int| 0 <= j < done.len() implies has_eq(#[trigger] full[j]) by {
                                assert(full[j] == comma_pieces(t)[j]);
                            }
                            assert(full[done.len() as int] == comma_pieces(t)[done.len() as int]);
                            assert(first_invalid(full, done.len() as int));
                        }
                    }
                    return Err(McpError::InvalidEnvVar(String::from_str(piece)));
                },
                Some((k, v)) => {
                    vars.insert(k, v);
                },
            }
            if i == n {
                proof {
                    assert(arg@.take(n as int) =~= arg@);
                    let full = comma_pieces(arg@);
                    assert(full == done.push(pv));
                    assert(full.drop_last() =~= done);
                    assert forall|q: int| !first_invalid(full, q) by {
                        if 0 <= q < full.len() {
                            if q < done.len() {
                                assert(full[q] == done[q]);
                            }
                        }
                    }
                }
                return Ok(vars);
            }
            proof {
                let t = arg@.take(i as int + 1);
                assert(t.drop_last() =~= arg@.take(i as int));
                assert(t.last() == ',');
                assert(done.push(pv).drop_last() =~= done);
                done = done.push(pv);
                assert(arg@.subrange(i as int + 1, i as int + 1) =~= Seq::<char>::empty());
            }
            i = i + 1;
            start = i;
        } else {
            proof {
                let t = arg@.take(i as int + 1);
                assert(t.drop_last() =~= arg@.take(i as int));
                assert(t.last() == arg@[i as int]);
                assert(arg@.subrange(start as int, i as int).push(arg@[i as int]) =~= arg@.subrange(
                    start as int,
                    i as int + 1,
                ));
            }
            i = i + 1;
        }
    }
}

} // verus!
