//! API keys in a local config file (`NAME=value`, one per line), and which
//! key a slot uses: an exported environment variable first, the file behind
//! it. Reading the file and the environment is left to the caller; what is
//! read from them, and what is written back, is decided here.

use vstd::prelude::*;
use crate::corrector::option_view;
use crate::text::{
    concat, has_prefix, is_blank, is_ws, join, join_strings, lemma_lines_no_newline, lemma_lines_of_join,
    lines, no_newline, split_lines, starts_with, string_from, strip_cr, to_chars, trim_str,
};

verus! {

/// The start of a slot's line: `NAME=`.
pub open spec fn key_prefix(env_var: Seq<char>) -> Seq<char> {
    env_var + "="@
}

/// The value after the first line that starts with `p`.
pub open spec fn value_in_lines(ls: Seq<Seq<char>>, p: Seq<char>) -> Option<Seq<char>>
    decreases ls.len(),
{
    if ls.len() == 0 {
        None
    } else if starts_with(ls[0], p) {
        Some(ls[0].skip(p.len() as int))
    } else {
        value_in_lines(ls.drop_first(), p)
    }
}

/// Value stored for `env_var` in the file body, if any.
pub open spec fn value_in_spec(body: Seq<char>, env_var: Seq<char>) -> Option<Seq<char>> {
    value_in_lines(lines(body), key_prefix(env_var))
}

/// The value stored for `env_var` in the file body, if any: the rest of the
/// first line that starts with `NAME=`. A slot whose name merely ends the
/// same does not match.
pub fn value_in(body: &str, env_var: &str) -> (r: Option<String>)
    ensures
        option_view_owned(r) == value_in_spec(body@, env_var@),
{
    let ls = split_lines(body);
    let prefix = concat(env_var, "=");
    let p = to_chars(prefix.as_str());
    let ghost all = lines(body@);
    let mut i: usize = 0;
    assert(all.skip(0) =~= all);
    while i < ls.len()
        invariant
            i <= ls@.len() == all.len(),
            all == lines(body@),
            p@ == key_prefix(env_var@),
            forall|j: int| 0 <= j < ls@.len() ==> #[trigger] ls@[j]@ == all[j],
            value_in_spec(body@, env_var@) == value_in_lines(all.skip(i as int), p@),
        decreases ls@.len() - i,
    {
        let l = to_chars(ls[i].as_str());
        assert(all.skip(i as int)[0] == all[i as int]);
        if has_prefix(&l, &p) {
            let v = string_from(&l, p.len(), l.len());
            assert(l@.subrange(p@.len() as int, l@.len() as int) =~= l@.skip(p@.len() as int));
            return Some(v);
        }
        assert(all.skip(i as int).drop_first() =~= all.skip(i + 1));
        i = i + 1;
    }
    None
}

pub open spec fn option_view_owned(o: Option<String>) -> Option<Seq<char>> {
    match o {
        Some(s) => Some(s@),
        None => None,
    }
}

/// The lines a save keeps: every line but the slot's own and the blank ones.
pub open spec fn kept_lines(ls: Seq<Seq<char>>, p: Seq<char>) -> Seq<Seq<char>>
    decreases ls.len(),
{
    if ls.len() == 0 {
        seq![]
    } else {
        let rest = kept_lines(ls.drop_last(), p);
        if !starts_with(ls.last(), p) && !is_blank(ls.last()) {
            rest.push(ls.last())
        } else {
            rest
        }
    }
}

/// The file after storing `key` in `env_var`'s slot: the other lines as they
/// were (blank ones dropped), the slot's line last, a newline at the end.
pub open spec fn saved_body_spec(body: Seq<char>, env_var: Seq<char>, key: Seq<char>) -> Seq<char> {
    join(kept_lines(lines(body), key_prefix(env_var)).push(key_prefix(env_var) + key), "\n"@)
        + "\n"@
}

/// A save keeps every line of the old file that is neither blank nor the
/// slot's own `NAME=` line, in order, and puts the slot's line after them:
/// the file written is those lines and `NAME=key`, each ended by `'\n'`.
pub proof fn lemma_save_keeps_other_lines(body: Seq<char>, env_var: Seq<char>, key: Seq<char>)
    ensures
        saved_body_spec(body, env_var, key) == join(
            lines(body).filter(|l: Seq<char>| !starts_with(l, env_var + "="@) && !is_blank(l)).push(
                env_var + "="@ + key,
            ),
            "\n"@,
        ) + "\n"@,
{
    lemma_kept_is_filter(lines(body), env_var + "="@);
}

proof fn lemma_kept_is_filter(ls: Seq<Seq<char>>, p: Seq<char>)
    ensures
        kept_lines(ls, p) == ls.filter(|l: Seq<char>| !starts_with(l, p) && !is_blank(l)),
    decreases ls.len(),
{
    reveal(Seq::filter);
    if ls.len() > 0 {
        lemma_kept_is_filter(ls.drop_last(), p);
    }
}

/// Read back after a save, the file holds the same lines as before less the
/// blank ones and the slot's old line (each less a trailing `'\r'` it may have
/// carried), in the same order, and then the slot's new line — for a name and
/// a key without line breaks.
pub proof fn lemma_save_reads_back_other_lines(body: Seq<char>, env_var: Seq<char>, key: Seq<char>)
    requires
        no_newline(env_var),
        no_newline(key),
    ensures
        lines(saved_body_spec(body, env_var, key)) == lines(body).filter(
            |l: Seq<char>| !starts_with(l, env_var + "="@) && !is_blank(l),
        ).map_values(|l: Seq<char>| strip_cr(l)).push(strip_cr(env_var + "="@ + key)),
{
    let p = key_prefix(env_var);
    let all = lines(body);
    let kept = kept_lines(all, p);
    let newl = p + key;
    let ls = kept.push(newl);
    lemma_kept_is_filter(all, p);
    lemma_lines_no_newline(body);
    lemma_kept_lines(all, p);
    reveal_strlit("=");
    reveal_strlit("\n");
    assert forall|i: int| 0 <= i < ls.len() implies no_newline(#[trigger] ls[i]) by {
        if i < kept.len() {
            assert(ls[i] == kept[i]);
            let j = choose|j: int| 0 <= j < all.len() && all[j] == kept[i];
            assert(no_newline(all[j]));
        } else {
            assert(ls[i] == newl);
            assert forall|k: int| 0 <= k < newl.len() implies newl[k] != '\n' by {
                if k < env_var.len() {
                    assert(newl[k] == env_var[k]);
                } else if k == env_var.len() {
                    assert(newl[k] == '=');
                } else {
                    assert(newl[k] == key[k - env_var.len() - 1]);
                }
            }
        }
    }
    lemma_lines_of_join(ls);
    assert("\n"@ =~= seq!['\n']);
    assert(ls.map_values(|l: Seq<char>| strip_cr(l)) =~= kept.map_values(|l: Seq<char>| strip_cr(l)).push(
        strip_cr(newl),
    ));
}

/// Rewrite the file body with `key` stored for `env_var`, replacing only that
/// slot's line and keeping the rest.
pub fn saved_body(body: &str, env_var: &str, key: &str) -> (out: String)
    ensures
        out@ == saved_body_spec(body@, env_var@, key@),
        out@ == join(
            lines(body@).filter(|l: Seq<char>| !starts_with(l, env_var@ + "="@) && !is_blank(l)).push(
                env_var@ + "="@ + key@,
            ),
            "\n"@,
        ) + "\n"@,
{
    proof {
        lemma_save_keeps_other_lines(body@, env_var@, key@);
    }
    let ls = split_lines(body);
    let prefix = concat(env_var, "=");
    let p = to_chars(prefix.as_str());
    let ghost all = lines(body@);
    let mut kept: Vec<String> = Vec::new();
    let mut i: usize = 0;
    assert(all.take(0) =~= Seq::<Seq<char>>::empty());
    while i < ls.len()
        invariant
            i <= ls@.len() == all.len(),
            all == lines(body@),
            p@ == key_prefix(env_var@),
            forall|j: int| 0 <= j < ls@.len() ==> #[trigger] ls@[j]@ == all[j],
            kept@.len() == kept_lines(all.take(i as int), p@).len(),
            forall|j: int|
                0 <= j < kept@.len() ==> #[trigger] kept@[j]@ == kept_lines(all.take(i as int), p@)[j],
        decreases ls@.len() - i,
    {
        let l = to_chars(ls[i].as_str());
        let t = trim_str(ls[i].as_str());
        assert(all.take(i + 1).drop_last() =~= all.take(i as int));
        assert(all.take(i + 1).last() == all[i as int]);
        if !has_prefix(&l, &p) && !t.as_str().is_empty() {
            kept.push(ls[i].clone());
        }
        i = i + 1;
    }
    assert(all.take(ls@.len() as int) =~= all);
    let mut line = prefix.clone();
    line.append(key);
    kept.push(line);
    let mut out = join_strings(&kept, 0, "\n");
    proof {
        let want = kept_lines(all, p@).push(p@ + key@);
        assert(kept@.skip(0).map_values(|s: String| s@) =~= want);
    }
    out.append("\n");
    out
}

/// What a line read back after joining keeps of `l`: a prefix of it.
proof fn lemma_strip_cr_prefix(l: Seq<char>, p: Seq<char>)
    ensures
        starts_with(strip_cr(l), p) ==> starts_with(l, p),
{
    if starts_with(strip_cr(l), p) {
        assert(l.take(p.len() as int) =~= strip_cr(l).take(p.len() as int));
    }
}

proof fn lemma_value_in_lines_append(xs: Seq<Seq<char>>, y: Seq<char>, p: Seq<char>)
    requires
        forall|i: int| 0 <= i < xs.len() ==> !starts_with(#[trigger] xs[i], p),
        starts_with(y, p),
    ensures
        value_in_lines(xs.push(y), p) == Some(y.skip(p.len() as int)),
    decreases xs.len(),
{
    if xs.len() == 0 {
        assert(xs.push(y)[0] == y);
    } else {
        assert(xs.push(y)[0] == xs[0]);
        assert(xs.push(y).drop_first() =~= xs.drop_first().push(y));
        assert forall|i: int| 0 <= i < xs.drop_first().len() implies !starts_with(
            #[trigger] xs.drop_first()[i],
            p,
        ) by {
            assert(xs.drop_first()[i] == xs[i + 1]);
        }
        lemma_value_in_lines_append(xs.drop_first(), y, p);
    }
}

/// Kept lines come from the lines given and are not the slot's own.
proof fn lemma_kept_lines(ls: Seq<Seq<char>>, p: Seq<char>)
    ensures
        forall|i: int|
            0 <= i < kept_lines(ls, p).len() ==> !starts_with(#[trigger] kept_lines(ls, p)[i], p)
                && exists|j: int| 0 <= j < ls.len() && ls[j] == kept_lines(ls, p)[i],
    decreases ls.len(),
{
    if ls.len() > 0 {
        lemma_kept_lines(ls.drop_last(), p);
        let rest = kept_lines(ls.drop_last(), p);
        assert forall|i: int| 0 <= i < kept_lines(ls, p).len() implies !starts_with(
            #[trigger] kept_lines(ls, p)[i],
            p,
        ) && exists|j: int| 0 <= j < ls.len() && ls[j] == kept_lines(ls, p)[i] by {
            if i < rest.len() {
                assert(kept_lines(ls, p)[i] == rest[i]);
                let j = choose|j: int| 0 <= j < ls.drop_last().len() && ls.drop_last()[j] == rest[i];
                assert(ls[j] == ls.drop_last()[j]);
            } else {
                assert(kept_lines(ls, p)[i] == ls.last());
                assert(ls[ls.len() - 1] == ls.last());
            }
        }
    }
}

/// A key that is stored is the key that is read back, as long as it holds no
/// line break (the file is one slot per line) and does not end in `'\r'`
/// (which `lines` takes as part of a line ending).
pub proof fn lemma_read_after_save(body: Seq<char>, env_var: Seq<char>, key: Seq<char>)
    requires
        no_newline(env_var),
        no_newline(key),
        key.len() > 0 ==> key.last() != '\r',
    ensures
        value_in_spec(saved_body_spec(body, env_var, key), env_var) == Some(key),
{
    let p = key_prefix(env_var);
    let all = lines(body);
    let kept = kept_lines(all, p);
    let newl = p + key;
    let ls = kept.push(newl);
    lemma_lines_no_newline(body);
    lemma_kept_lines(all, p);
    reveal_strlit("=");
    assert forall|i: int| 0 <= i < ls.len() implies no_newline(#[trigger] ls[i]) by {
        if i < kept.len() {
            assert(ls[i] == kept[i]);
            let j = choose|j: int| 0 <= j < all.len() && all[j] == kept[i];
            assert(no_newline(all[j]));
        } else {
            assert(ls[i] == newl);
            assert forall|k: int| 0 <= k < newl.len() implies newl[k] != '\n' by {
                if k < env_var.len() {
                    assert(newl[k] == env_var[k]);
                } else if k == env_var.len() {
                    assert(newl[k] == '=');
                } else {
                    assert(newl[k] == key[k - env_var.len() - 1]);
                }
            }
        }
    }
    lemma_lines_of_join(ls);
    let read = ls.map_values(|l: Seq<char>| strip_cr(l));
    assert(saved_body_spec(body, env_var, key) == join(ls, "\n"@) + "\n"@);
    reveal_strlit("\n");
    assert("\n"@ =~= seq!['\n']);
    assert(lines(saved_body_spec(body, env_var, key)) == read);
    assert(newl.last() != '\r');
    assert(strip_cr(newl) == newl);
    let kc = kept.map_values(|l: Seq<char>| strip_cr(l));
    assert(read =~= kc.push(newl));
    assert forall|i: int| 0 <= i < kc.len() implies !starts_with(#[trigger] kc[i], p) by {
        lemma_strip_cr_prefix(kept[i], p);
    }
    assert(newl.take(p.len() as int) =~= p);
    lemma_value_in_lines_append(kc, newl, p);
    assert(newl.skip(p.len() as int) =~= key);
}

/// The key to use for a slot: the environment first (startup load and dev
/// overrides land there) when it is set and not empty, the file behind it,
/// nothing when neither holds one.
pub open spec fn key_for_spec(env_value: Option<Seq<char>>, file_body: Seq<char>, env_var: Seq<char>) -> Seq<char> {
    match env_value {
        Some(k) if k.len() > 0 => k,
        _ => match value_in_spec(file_body, env_var) {
            Some(v) => v,
            None => seq![],
        },
    }
}

/// The key to use for this slot, given what the environment holds for it and
/// what the key file holds.
pub fn key_for(env_value: Option<&str>, file_body: &str, env_var: &str) -> (k: String)
    ensures
        k@ == key_for_spec(option_view(env_value), file_body@, env_var@),
{
    match env_value {
        Some(k) if !k.is_empty() => k.to_owned(),
        _ => match value_in(file_body, env_var) {
            Some(v) => v,
            None => String::new(),
        },
    }
}

/// Whether a usable key for this slot is present (environment or file).
pub fn has_key(env_value: Option<&str>, file_body: &str, env_var: &str) -> (b: bool)
    ensures
        b == (key_for_spec(option_view(env_value), file_body@, env_var@).len() > 0),
{
    let k = key_for(env_value, file_body, env_var);
    !k.as_str().is_empty()
}

/// The key to put into the environment at startup: the file's, when the
/// environment holds none (an exported variable is a dev override and wins)
/// and the file's is not empty.
pub fn key_to_load(env_value: Option<&str>, file_body: &str, env_var: &str) -> (r: Option<String>)
    ensures
        match option_view(env_value) {
            Some(e) if e.len() > 0 => r is None,
            _ => match value_in_spec(file_body@, env_var@) {
                Some(v) if v.len() > 0 => option_view_owned(r) == Some(v),
                _ => r is None,
            },
        },
{
    match env_value {
        Some(k) if !k.is_empty() => None,
        _ => match value_in(file_body, env_var) {
            Some(v) => if v.as_str().is_empty() {
                None
            } else {
                Some(v)
            },
            None => None,
        },
    }
}


pub open spec fn no_equals(name: Seq<char>) -> bool {
    forall|k: int| 0 <= k < name.len() ==> name[k] != '='
}

/// Two slot names without `'='` in them: a line cannot start with both
/// `NAME=` prefixes unless the names are the same.
proof fn lemma_distinct_prefixes(l: Seq<char>, a: Seq<char>, b: Seq<char>)
    requires
        no_equals(a),
        no_equals(b),
        a != b,
    ensures
        !(starts_with(l, key_prefix(a)) && starts_with(l, key_prefix(b))),
{
    reveal_strlit("=");
    let p = key_prefix(a);
    let q = key_prefix(b);
    if starts_with(l, p) && starts_with(l, q) {
        assert(p[p.len() - 1] == '=');
        assert(q[q.len() - 1] == '=');
        if a.len() < b.len() {
            assert(l[a.len() as int] == p[a.len() as int]);
            assert(l[a.len() as int] == q[a.len() as int]);
            assert(q[a.len() as int] == b[a.len() as int]);
        } else if b.len() < a.len() {
            assert(l[b.len() as int] == q[b.len() as int]);
            assert(l[b.len() as int] == p[b.len() as int]);
            assert(p[b.len() as int] == a[b.len() as int]);
        } else {
            assert forall|k: int| 0 <= k < a.len() implies a[k] == b[k] by {
                assert(l[k] == p[k]);
                assert(l[k] == q[k]);
            }
            assert(a =~= b);
        }
    }
}

/// A line that starts with `NAME=` is not blank.
proof fn lemma_prefixed_not_blank(l: Seq<char>, name: Seq<char>)
    requires
        starts_with(l, key_prefix(name)),
    ensures
        !is_blank(l),
{
    reveal_strlit("=");
    if is_blank(l) {
        crate::text::lemma_blank_all_ws(l);
        assert(l[name.len() as int] == key_prefix(name)[name.len() as int]);
        assert(is_ws(l[name.len() as int]));
    }
}

proof fn lemma_value_in_lines_push(xs: Seq<Seq<char>>, y: Seq<char>, q: Seq<char>)
    ensures
        value_in_lines(xs.push(y), q) == (if value_in_lines(xs, q) is Some {
            value_in_lines(xs, q)
        } else if starts_with(y, q) {
            Some(y.skip(q.len() as int))
        } else {
            None
        }),
    decreases xs.len(),
{
    if xs.len() == 0 {
        assert(xs.push(y)[0] == y);
        assert(xs.push(y).drop_first() =~= Seq::<Seq<char>>::empty());
    } else {
        assert(xs.push(y)[0] == xs[0]);
        assert(xs.push(y).drop_first() =~= xs.drop_first().push(y));
        lemma_value_in_lines_push(xs.drop_first(), y, q);
    }
}

/// Dropping lines that do not start with `q` does not change what `q` reads.
proof fn lemma_kept_same_value(ls: Seq<Seq<char>>, p: Seq<char>, a: Seq<char>, b: Seq<char>)
    requires
        p == key_prefix(a),
        no_equals(a),
        no_equals(b),
        a != b,
    ensures
        value_in_lines(kept_lines(ls, p), key_prefix(b)) == value_in_lines(ls, key_prefix(b)),
    decreases ls.len(),
{
    if ls.len() > 0 {
        let q = key_prefix(b);
        let y = ls.last();
        lemma_kept_same_value(ls.drop_last(), p, a, b);
        assert(ls =~= ls.drop_last().push(y));
        lemma_value_in_lines_push(ls.drop_last(), y, q);
        lemma_value_in_lines_push(kept_lines(ls.drop_last(), p), y, q);
        if starts_with(y, q) {
            lemma_distinct_prefixes(y, a, b);
            lemma_prefixed_not_blank(y, b);
        }
    }
}

/// Reading lines that each lost a trailing `'\r'` gives the same slot value,
/// less a trailing `'\r'` of its own.
proof fn lemma_value_in_stripped(xs: Seq<Seq<char>>, q: Seq<char>)
    requires
        q.len() > 0,
        q.last() == '=',
    ensures
        value_in_lines(xs.map_values(|l: Seq<char>| strip_cr(l)), q) == (match value_in_lines(xs, q) {
            Some(v) => Some(strip_cr(v)),
            None => None,
        }),
    decreases xs.len(),
{
    if xs.len() > 0 {
        let ys = xs.map_values(|l: Seq<char>| strip_cr(l));
        assert(ys[0] == strip_cr(xs[0]));
        assert(ys.drop_first() =~= xs.drop_first().map_values(|l: Seq<char>| strip_cr(l)));
        lemma_value_in_stripped(xs.drop_first(), q);
        let l = xs[0];
        lemma_strip_cr_prefix(l, q);
        if starts_with(l, q) {
            let n = q.len() as int;
            assert(l[n - 1] == q[n - 1]);
            if l.len() > 0 && l.last() == '\r' {
                assert(l.len() > n);
                assert(strip_cr(l).take(n) =~= q);
                assert(strip_cr(l).skip(n) =~= strip_cr(l.skip(n)));
            } else if l.skip(n).len() > 0 {
                assert(l.skip(n).last() == l.last());
            }
        }
    }
}

/// Storing a key in one slot leaves what every other slot reads unchanged,
/// for slot names without `'='` and a name and key without line breaks. The
/// one value that does not survive is one ending in a stray `'\r'`: the file
/// is rewritten with `'\n'` endings, and reading it back takes that `'\r'`
/// for part of the line ending.
pub proof fn lemma_save_keeps_other_slots(
    body: Seq<char>,
    env_var: Seq<char>,
    key: Seq<char>,
    other: Seq<char>,
)
    requires
        no_equals(env_var),
        no_equals(other),
        env_var != other,
        no_newline(env_var),
        no_newline(key),
        !(value_in_spec(body, other) matches Some(v) && v.len() > 0 && v.last() == '\r'),
    ensures
        value_in_spec(saved_body_spec(body, env_var, key), other) == value_in_spec(body, other),
{
    let p = key_prefix(env_var);
    let q = key_prefix(other);
    let all = lines(body);
    let kept = kept_lines(all, p);
    let newl = p + key;
    let ls = kept.push(newl);
    lemma_lines_no_newline(body);
    lemma_kept_lines(all, p);
    reveal_strlit("=");
    reveal_strlit("\n");
    assert forall|i: int| 0 <= i < ls.len() implies no_newline(#[trigger] ls[i]) by {
        if i < kept.len() {
            assert(ls[i] == kept[i]);
            let j = choose|j: int| 0 <= j < all.len() && all[j] == kept[i];
            assert(no_newline(all[j]));
        } else {
            assert(ls[i] == newl);
            assert forall|k: int| 0 <= k < newl.len() implies newl[k] != '\n' by {
                if k < env_var.len() {
                    assert(newl[k] == env_var[k]);
                } else if k == env_var.len() {
                    assert(newl[k] == '=');
                } else {
                    assert(newl[k] == key[k - env_var.len() - 1]);
                }
            }
        }
    }
    lemma_lines_of_join(ls);
    assert("\n"@ =~= seq!['\n']);
    let read = ls.map_values(|l: Seq<char>| strip_cr(l));
    assert(lines(saved_body_spec(body, env_var, key)) == read);
    let kc = kept.map_values(|l: Seq<char>| strip_cr(l));
    assert(read =~= kc.push(strip_cr(newl)));
    assert(newl.take(p.len() as int) =~= p);
    lemma_distinct_prefixes(newl, env_var, other);
    lemma_strip_cr_prefix(newl, q);
    lemma_value_in_lines_push(kc, strip_cr(newl), q);
    assert(q.last() == '=');
    lemma_value_in_stripped(kept, q);
    lemma_kept_same_value(all, p, env_var, other);
}

} // verus!
