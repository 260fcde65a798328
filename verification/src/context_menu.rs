//! The per-user "Compress with tamp" Explorer entry: the registry keys it
//! lives under, and the all-or-nothing orchestration of writing and removing
//! them (the per-key writes themselves are the caller's).
use vstd::prelude::*;

use crate::text::{push_str, string_from_chars};

verus! {

/// std's `io::Error`, carried through opaquely.
#[verifier::external_type_specification]
#[verifier::external_body]
pub struct ExIoError(std::io::Error);

/// The six video extensions the menu entry is registered for (leading dot).
pub const EXTS: [&'static str; 6] = [".mov", ".mp4", ".m4v", ".webm", ".mkv", ".avi"];

pub open spec fn verb_key_text(ext: Seq<char>) -> Seq<char> {
    "Software\\Classes\\SystemFileAssociations\\"@ + ext + "\\shell\\tamp.compress"@
}

/// Registry subkey (under HKCU) carrying the verb for `ext` (e.g. ".mp4").
pub fn verb_key(ext: &str) -> (r: String)
    ensures
        r@ == verb_key_text(ext@),
{
    let mut v: Vec<char> = Vec::new();
    push_str(&mut v, "Software\\Classes\\SystemFileAssociations\\");
    push_str(&mut v, ext);
    push_str(&mut v, "\\shell\\tamp.compress");
    string_from_chars(&v)
}

/// The `command` value: the exe invoked with the right-clicked file as `%1`.
pub fn command_value(exe: &str) -> (r: String)
    ensures
        r@ == "\""@ + exe@ + "\" \"%1\""@,
{
    let mut v: Vec<char> = Vec::new();
    push_str(&mut v, "\"");
    push_str(&mut v, exe);
    push_str(&mut v, "\" \"%1\"");
    string_from_chars(&v)
}

/// A call of `f` on `s` can succeed.
pub open spec fn may_succeed<F: Fn(&str) -> std::io::Result<()>>(f: F, s: &str) -> bool {
    exists|v: std::io::Result<()>| f.ensures((s,), v) && v is Ok
}

/// `f` has been called on `s`: some outcome of that call is known.
pub open spec fn called<F: Fn(&str) -> std::io::Result<()>>(f: F, s: &str) -> bool {
    exists|v: std::io::Result<()>| #[trigger] f.ensures((s,), v)
}

/// A registry operation of the registration: write or delete the keys of
/// the extension at a position of [`EXTS`], or stop.
#[derive(Clone, Copy, Debug, PartialEq, Eq, Structural)]
pub enum RegistryOp {
    Write(usize),
    Delete(usize),
    Finish,
}

/// How many of the outcomes, from the first, are successes.
pub open spec fn leading_ok(o: Seq<bool>) -> nat
    decreases o.len(),
{
    if o.len() == 0 {
        0
    } else if o[0] {
        1 + leading_ok(o.drop_first())
    } else {
        0
    }
}

/// The registration's next operation, given whether each operation so far
/// succeeded: the extensions are written in order while the writes succeed;
/// after the first failed write (of the extension at `k`) the extensions
/// written before it are deleted in order, whatever those deletes return,
/// and nothing is written again.
pub open spec fn register_next(o: Seq<bool>) -> RegistryOp {
    let k = leading_ok(o);
    if k == o.len() {
        if k < 6 {
            RegistryOp::Write(k as usize)
        } else {
            RegistryOp::Finish
        }
    } else {
        let m = o.len() - k - 1;
        if k < 6 && m < k {
            RegistryOp::Delete(m as usize)
        } else {
            RegistryOp::Finish
        }
    }
}

proof fn lemma_leading_ok_bounds(o: Seq<bool>)
    ensures
        leading_ok(o) <= o.len(),
        leading_ok(o) < o.len() ==> !o[leading_ok(o) as int],
        forall|j: int| 0 <= j < leading_ok(o) ==> #[trigger] o[j],
    decreases o.len(),
{
    if o.len() > 0 && o[0] {
        lemma_leading_ok_bounds(o.drop_first());
        assert forall|j: int| 0 <= j < leading_ok(o) implies #[trigger] o[j] by {
            if j > 0 {
                assert(o[j] == o.drop_first()[j - 1]);
            }
        }
    }
}

proof fn lemma_leading_ok_push(o: Seq<bool>, b: bool)
    ensures
        leading_ok(o) < o.len() ==> leading_ok(o.push(b)) == leading_ok(o),
        leading_ok(o) == o.len() ==> leading_ok(o.push(b)) == if b {
            o.len() + 1
        } else {
            o.len()
        },
    decreases o.len(),
{
    if o.len() > 0 {
        assert(o.push(b).drop_first() =~= o.drop_first().push(b));
        assert(o.push(b)[0] == o[0]);
        lemma_leading_ok_push(o.drop_first(), b);
    } else {
        assert(o.push(b).drop_first() =~= Seq::<bool>::empty());
        assert(o.push(b)[0] == b);
        assert(leading_ok(o.push(b).drop_first()) == 0);
    }
}

/// The next registry operation after the outcomes `outcomes`.
pub fn register_step(outcomes: &Vec<bool>) -> (r: RegistryOp)
    ensures
        r == register_next(outcomes@),
{
    let mut k: usize = 0;
    assert(outcomes@.skip(0) =~= outcomes@);
    while k < outcomes.len() && outcomes[k]
        invariant
            k <= outcomes.len(),
            forall|j: int| 0 <= j < k ==> outcomes@[j],
            leading_ok(outcomes@) == k + leading_ok(outcomes@.skip(k as int)),
        decreases outcomes.len() - k,
    {
        assert(outcomes@.skip(k as int).drop_first() =~= outcomes@.skip(k + 1));
        k = k + 1;
    }
    proof {
        if k < outcomes.len() {
            assert(!outcomes@.skip(k as int)[0]);
        } else {
            assert(outcomes@.skip(k as int) =~= Seq::<bool>::empty());
        }
    }
    if k == outcomes.len() {
        if k < 6 {
            RegistryOp::Write(k)
        } else {
            RegistryOp::Finish
        }
    } else {
        let m = outcomes.len() - k - 1;
        if k < 6 && m < k {
            RegistryOp::Delete(m)
        } else {
            RegistryOp::Finish
        }
    }
}

/// While every write succeeds the extensions are written in order, and
/// registration stops after the last one.
pub proof fn lemma_register_writes_in_order(o: Seq<bool>)
    requires
        o.len() <= 6,
        forall|j: int| 0 <= j < o.len() ==> #[trigger] o[j],
    ensures
        o.len() < 6 ==> register_next(o) == RegistryOp::Write(o.len() as usize),
        o.len() == 6 ==> register_next(o) == RegistryOp::Finish,
{
    lemma_all_ok(o);
}

proof fn lemma_all_ok(o: Seq<bool>)
    requires
        forall|j: int| 0 <= j < o.len() ==> #[trigger] o[j],
    ensures
        leading_ok(o) == o.len(),
    decreases o.len(),
{
    if o.len() > 0 {
        assert forall|j: int| 0 <= j < o.drop_first().len() implies #[trigger] o.drop_first()[j] by {
            assert(o.drop_first()[j] == o[j + 1]);
        }
        lemma_all_ok(o.drop_first());
    }
}

/// After the write of the extension at `k` fails (the `k` before it having
/// succeeded), the next operations delete the extensions at `0..k` in
/// order, whatever those deletes return, and then registration stops; no
/// extension is written again.
pub proof fn lemma_register_rolls_back(k: nat, rollback: Seq<bool>)
    requires
        k < 6,
        rollback.len() <= k,
    ensures
        ({
            let o = Seq::new(k, |j: int| true).push(false) + rollback;
            &&& rollback.len() < k ==> register_next(o) == RegistryOp::Delete(
                rollback.len() as usize,
            )
            &&& rollback.len() == k ==> register_next(o) == RegistryOp::Finish
        }),
{
    let w = Seq::new(k, |j: int| true);
    let o = w.push(false) + rollback;
    lemma_all_ok(w);
    lemma_leading_ok_push(w, false);
    lemma_leading_ok_prefix(w.push(false), rollback);
}

proof fn lemma_leading_ok_prefix(a: Seq<bool>, b: Seq<bool>)
    requires
        leading_ok(a) < a.len(),
    ensures
        leading_ok(a + b) == leading_ok(a),
    decreases a.len(),
{
    if a[0] {
        assert((a + b).drop_first() =~= a.drop_first() + b);
        lemma_leading_ok_prefix(a.drop_first(), b);
    }
}

/// Once a write has failed, nothing is written again.
pub proof fn lemma_no_write_after_failure(o: Seq<bool>, i: int)
    requires
        0 <= i < o.len(),
        !o[i],
    ensures
        !(register_next(o) is Write),
{
    lemma_leading_ok_bounds(o);
}

proof fn lemma_register_next_bound(o: Seq<bool>)
    ensures
        register_next(o) != RegistryOp::Finish ==> o.len() < 12,
        register_next(o) matches RegistryOp::Write(i) ==> i < 6,
        register_next(o) matches RegistryOp::Delete(i) ==> i < 6,
{
    lemma_leading_ok_bounds(o);
}

/// All-or-nothing registration, over the per-key `write`/`delete` ops,
/// driven by [`register_next`]: the extensions are written in order; on the
/// first failure the ones already written by this call are deleted again (a
/// failed delete is ignored: the write error is the one to report) and that
/// write's error is returned.
pub fn register_with<W, D>(write: W, delete: D) -> (r: std::io::Result<()>) where
    W: Fn(&str) -> std::io::Result<()>,
    D: Fn(&str) -> std::io::Result<()>,

    requires
        forall|s: &str| #[trigger] write.requires((s,)),
        forall|s: &str| #[trigger] delete.requires((s,)),
    ensures
        r is Ok ==> forall|i: int|
            0 <= i < 6 ==> #[trigger] may_succeed(write, EXTS@[i]),
        r is Err ==> exists|i: int|
            0 <= i < 6 && #[trigger] write.ensures((EXTS@[i],), r) && forall|j: int|
                0 <= j < i ==> #[trigger] may_succeed(write, EXTS@[j]) && called(
                    delete,
                    EXTS@[j],
                ),
{
    let exts = EXTS;
    let mut outcomes: Vec<bool> = Vec::new();
    let mut failure: Option<std::io::Error> = None;
    let ghost mut failed_at: int = 0;
    loop
        invariant
            exts@ == EXTS@,
            forall|s: &str| #[trigger] write.requires((s,)),
            forall|s: &str| #[trigger] delete.requires((s,)),
            outcomes@.len() <= 12,
            failure is None ==> leading_ok(outcomes@) == outcomes@.len() && outcomes@.len() <= 6,
            forall|j: int| 0 <= j < leading_ok(outcomes@) && j < 6 ==> #[trigger] may_succeed(write, EXTS@[j]),
            failure is Some ==> failed_at == leading_ok(outcomes@) && failed_at < 6
                && failed_at < outcomes@.len(),
            failure matches Some(e) ==> write.ensures((EXTS@[failed_at],), Err::<(), std::io::Error>(e)),
            failure is Some ==> forall|j: int|
                0 <= j < outcomes@.len() - failed_at - 1 && j < failed_at ==> #[trigger] called(
                    delete,
                    EXTS@[j],
                ),
        ensures
            failure is None ==> leading_ok(outcomes@) == 6,
            failure is Some ==> outcomes@.len() - failed_at - 1 >= failed_at,
        decreases 12 - outcomes@.len(),
    {
        let op = register_step(&outcomes);
        proof {
            lemma_register_next_bound(outcomes@);
            lemma_leading_ok_bounds(outcomes@);
            lemma_leading_ok_push(outcomes@, true);
            lemma_leading_ok_push(outcomes@, false);
        }
        match op {
            RegistryOp::Write(i) => {
                let ext = exts[i];
                assert(ext == EXTS@[i as int]);
                let res = write(ext);
                assert(write.ensures((ext,), res));
                match res {
                    Ok(()) => {
                        outcomes.push(true);
                    },
                    Err(e) => {
                        proof {
                            failed_at = i as int;
                        }
                        outcomes.push(false);
                        failure = Some(e);
                    },
                }
            },
            RegistryOp::Delete(i) => {
                let ext = exts[i];
                assert(ext == EXTS@[i as int]);
                let res = delete(ext);
                assert(delete.ensures((ext,), res));
                assert(called(delete, EXTS@[i as int]));
                outcomes.push(res.is_ok());
            },
            RegistryOp::Finish => {
                break;
            },
        }
    }
    match failure {
        Some(e) => {
            let r: std::io::Result<()> = Err(e);
            assert(write.ensures((EXTS@[failed_at],), r));
            r
        },
        None => Ok(()),
    }
}

/// Best-effort unregistration, over the per-key `delete` op: every extension
/// is attempted (a failure does not stop the rest) and the first error, if
/// any, is returned after all six.
pub fn unregister_with<D>(delete: D) -> (r: std::io::Result<()>) where
    D: Fn(&str) -> std::io::Result<()>,

    requires
        forall|s: &str| #[trigger] delete.requires((s,)),
    ensures
        forall|i: int| 0 <= i < 6 ==> #[trigger] called(delete, EXTS@[i]),
        r is Ok ==> forall|i: int| 0 <= i < 6 ==> #[trigger] may_succeed(delete, EXTS@[i]),
        r is Err ==> exists|i: int|
            0 <= i < 6 && #[trigger] delete.ensures((EXTS@[i],), r) && forall|j: int|
                0 <= j < i ==> #[trigger] may_succeed(delete, EXTS@[j]),
{
    let exts = EXTS;
    let mut first_err: Option<std::io::Error> = None;
    let ghost mut err_at: int = 0;
    let mut i: usize = 0;
    while i < 6
        invariant
            exts@ == EXTS@,
            i <= 6,
            forall|s: &str| #[trigger] delete.requires((s,)),
            forall|j: int| 0 <= j < i ==> #[trigger] called(delete, EXTS@[j]),
            first_err is None ==> forall|j: int|
                0 <= j < i ==> #[trigger] may_succeed(delete, EXTS@[j]),
            first_err matches Some(e) ==> 0 <= err_at < i && delete.ensures(
                (EXTS@[err_at],),
                Err(e),
            ),
            first_err is Some ==> forall|j: int|
                0 <= j < err_at ==> #[trigger] may_succeed(delete, EXTS@[j]),
        decreases 6 - i,
    {
        let ext = exts[i];
        assert(ext == EXTS@[i as int]);
        let res = delete(ext);
        assert(delete.ensures((ext,), res));
        assert(called(delete, EXTS@[i as int]));
        match res {
            Ok(()) => {},
            Err(e) => {
                if first_err.is_none() {
                    proof {
                        err_at = i as int;
                    }
                    first_err = Some(e);
                }
            },
        }
        i = i + 1;
    }
    match first_err {
        Some(e) => {
            let r: std::io::Result<()> = Err(e);
            assert(delete.ensures((EXTS@[err_at],), r));
            r
        },
        None => Ok(()),
    }
}

} // verus!
