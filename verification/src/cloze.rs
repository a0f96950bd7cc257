//! Locating cloze-deletion markers in field text. A marker has the form
//! `{{cN::...}}` with a 1-based index N; the marker prefix is
//! case-insensitive (`{{c` or `{{C`). The scanner collects the distinct
//! indices across all field values of a note, in first-occurrence order;
//! template syntax beyond the marker itself is not validated. An index is
//! limited to nine digits so that every ordinal fits the database's integer
//! columns; a longer digit run is not treated as a marker.

use vstd::prelude::*;
use vstd::seq_lib::*;
use vstd::set_lib::*;
use vstd::string::StrSliceExecFns;

verus! {

/// Whether `c` is an ASCII decimal digit.
pub open spec fn is_digit(c: char) -> bool {
    48 <= c as u32 <= 57
}

/// The value of the digit `c`.
pub open spec fn digit_of(c: char) -> nat {
    ((c as u32) - 48) as nat
}

/// Whether every character of `s` is an ASCII decimal digit.
pub open spec fn all_digits(s: Seq<char>) -> bool {
    forall|m: int| 0 <= m < s.len() ==> is_digit(#[trigger] s[m])
}

/// The number a run of decimal digits denotes.
pub open spec fn digits_val(s: Seq<char>) -> nat
    decreases s.len(),
{
    if s.len() == 0 {
        0
    } else {
        digits_val(s.drop_last()) * 10 + digit_of(s.last())
    }
}

/// Ten to the power `k`.
pub open spec fn pow10(k: nat) -> nat
    decreases k,
{
    if k == 0 {
        1
    } else {
        10 * pow10((k - 1) as nat)
    }
}

/// The length of the run of digits of `s` that starts at `j`.
pub open spec fn run_len(s: Seq<char>, j: int) -> nat
    decreases s.len() - j when j <= s.len()
{
    if 0 <= j < s.len() && is_digit(s[j]) {
        1 + run_len(s, j + 1)
    } else {
        0
    }
}

/// A cloze marker of digit-run length `k` stands at position `i` of `s`:
/// `{{c` (or `{{C`), then `k` digits, then `::`.
pub open spec fn marker_with_len_at(s: Seq<char>, i: int, k: int) -> bool {
    &&& 0 <= i
    &&& 1 <= k <= 9
    &&& i + 5 + k <= s.len()
    &&& s[i] == '{'
    &&& s[i + 1] == '{'
    &&& (s[i + 2] == 'c' || s[i + 2] == 'C')
    &&& all_digits(s.subrange(i + 3, i + 3 + k))
    &&& s[i + 3 + k] == ':'
    &&& s[i + 4 + k] == ':'
}

/// A cloze marker stands at position `i` of `s`. Equivalent to
/// `marker_with_len_at` for the (unique) length of the digit run at `i + 3`.
pub open spec fn is_marker_at(s: Seq<char>, i: int) -> bool {
    let k = run_len(s, i + 3) as int;
    &&& 0 <= i
    &&& 1 <= k <= 9
    &&& i + 5 + k <= s.len()
    &&& s[i] == '{'
    &&& s[i + 1] == '{'
    &&& (s[i + 2] == 'c' || s[i + 2] == 'C')
    &&& s[i + 3 + k] == ':'
    &&& s[i + 4 + k] == ':'
}

/// The index of the marker at position `i` of `s`.
pub open spec fn marker_val_at(s: Seq<char>, i: int) -> nat {
    digits_val(s.subrange(i + 3, i + 3 + run_len(s, i + 3) as int))
}

/// The set of distinct cloze indices that occur anywhere in `s`.
pub open spec fn cloze_indices(s: Seq<char>) -> Set<nat> {
    Set::new(
        |n: nat|
            n >= 1 && exists|i: int, k: int|
                marker_with_len_at(s, i, k) && digits_val(s.subrange(i + 3, i + 3 + k)) == n,
    )
}

/// The set of distinct cloze indices across all field values of a note.
pub open spec fn note_cloze_indices(fields: Seq<Seq<char>>) -> Set<nat> {
    Set::new(
        |n: nat|
            exists|f: int| 0 <= f < fields.len() && (#[trigger] cloze_indices(fields[f])).contains(
                n,
            ),
    )
}

/// The (1-based) marker indices found at positions `0..i` of `s`, in order
/// of occurrence, duplicates kept; a marker with index 0 is ignored, indices
/// being 1-based.
pub open spec fn scanned(s: Seq<char>, i: int) -> Seq<nat>
    decreases i,
{
    if i <= 0 {
        Seq::empty()
    } else {
        scanned(s, i - 1) + (if is_marker_at(s, i - 1) && marker_val_at(s, i - 1) >= 1 {
            seq![marker_val_at(s, i - 1)]
        } else {
            Seq::empty()
        })
    }
}

/// Every marker index of the field text `s`, in order of occurrence.
pub open spec fn field_markers(s: Seq<char>) -> Seq<nat> {
    scanned(s, s.len() as int)
}

/// The marker indices of the first `f` fields, concatenated in field order.
pub open spec fn collected(fields: Seq<Seq<char>>, f: int) -> Seq<nat>
    decreases f,
{
    if f <= 0 {
        Seq::empty()
    } else {
        collected(fields, f - 1) + field_markers(fields[f - 1])
    }
}

/// Every marker index of a note, across all its field values, in order.
pub open spec fn note_markers(fields: Seq<Seq<char>>) -> Seq<nat> {
    collected(fields, fields.len() as int)
}

/// `s` with every repetition of an earlier element removed; first
/// occurrences keep their order.
pub open spec fn dedup(s: Seq<nat>) -> Seq<nat>
    decreases s.len(),
{
    if s.len() == 0 {
        Seq::empty()
    } else {
        let d = dedup(s.drop_last());
        if d.contains(s.last()) {
            d
        } else {
            d.push(s.last())
        }
    }
}

/// The ordinals of the cards a cloze note produces: every distinct marker
/// index minus one, in first-occurrence order; the single fallback ordinal 0
/// when no marker occurs anywhere.
pub open spec fn cloze_ord_seq(fields: Seq<Seq<char>>) -> Seq<int> {
    let d = dedup(note_markers(fields));
    if d.len() == 0 {
        seq![0int]
    } else {
        d.map_values(|n: nat| n - 1)
    }
}

proof fn lemma_pow10_pos(k: nat)
    ensures
        pow10(k) >= 1,
    decreases k,
{
    if k > 0 {
        lemma_pow10_pos((k - 1) as nat);
    }
}

proof fn lemma_pow10_mono(a: nat, b: nat)
    requires
        a <= b,
    ensures
        pow10(a) <= pow10(b),
    decreases b,
{
    if a < b {
        lemma_pow10_mono(a, (b - 1) as nat);
        lemma_pow10_pos((b - 1) as nat);
    }
}

/// The characteristic properties of `run_len`: the run is made of digits,
/// stays inside `s`, and is maximal.
proof fn lemma_run_len_props(s: Seq<char>, j: int)
    requires
        0 <= j <= s.len(),
    ensures
        j + run_len(s, j) <= s.len(),
        forall|m: int| j <= m < j + run_len(s, j) ==> is_digit(#[trigger] s[m]),
        j + run_len(s, j) < s.len() ==> !is_digit(s[j + run_len(s, j)]),
    decreases s.len() - j,
{
    if 0 <= j < s.len() && is_digit(s[j]) {
        lemma_run_len_props(s, j + 1);
    }
}

/// A maximal run of `k` digits starting at `j` means `run_len` is exactly `k`.
proof fn lemma_run_len_exact(s: Seq<char>, j: int, k: int)
    requires
        0 <= j,
        0 <= k,
        j + k <= s.len(),
        forall|m: int| j <= m < j + k ==> is_digit(#[trigger] s[m]),
        j + k == s.len() || !is_digit(s[j + k]),
    ensures
        run_len(s, j) == k,
    decreases k,
{
    if k == 0 {
    } else {
        lemma_run_len_exact(s, j + 1, k - 1);
    }
}

/// `k` digits starting at `j` mean the run is at least `k` long.
proof fn lemma_run_len_ge(s: Seq<char>, j: int, k: int)
    requires
        0 <= j,
        0 <= k,
        j + k <= s.len(),
        forall|m: int| j <= m < j + k ==> is_digit(#[trigger] s[m]),
    ensures
        run_len(s, j) >= k,
    decreases k,
{
    if k > 0 {
        lemma_run_len_ge(s, j + 1, k - 1);
    }
}

/// The two marker descriptions agree: a marker in the declarative sense
/// exists exactly for the maximal digit run, with the same index value.
proof fn lemma_marker_forms(s: Seq<char>, i: int)
    ensures
        is_marker_at(s, i) ==> marker_with_len_at(s, i, run_len(s, i + 3) as int),
        forall|k: int|
            #[trigger] marker_with_len_at(s, i, k) ==> is_marker_at(s, i) && k == run_len(s, i + 3)
                && digits_val(s.subrange(i + 3, i + 3 + k)) == marker_val_at(s, i),
{
    if is_marker_at(s, i) {
        lemma_run_len_props(s, i + 3);
        let k = run_len(s, i + 3) as int;
        assert(all_digits(s.subrange(i + 3, i + 3 + k)));
    }
    assert forall|k: int| #[trigger] marker_with_len_at(s, i, k) implies is_marker_at(s, i) && k
        == run_len(s, i + 3) && digits_val(s.subrange(i + 3, i + 3 + k)) == marker_val_at(
        s,
        i,
    ) by {
        assert(forall|m: int|
            i + 3 <= m < i + 3 + k ==> is_digit(#[trigger] s[m])) by {
            assert(forall|m: int|
                i + 3 <= m < i + 3 + k ==> s[m] == s.subrange(i + 3, i + 3 + k)[m - i - 3]);
        }
        assert(!is_digit(':'));
        lemma_run_len_exact(s, i + 3, k);
    }
}

/// Whether `c` is an ASCII decimal digit.
fn is_digit_exec(c: char) -> (b: bool)
    ensures
        b == is_digit(c),
{
    let u = c as u32;
    48 <= u && u <= 57
}

/// The characters of `s`, as a vector.
pub fn chars_vec(s: &str) -> (v: Vec<char>)
    ensures
        v@ == s@,
{
    let n = s.unicode_len();
    let mut v: Vec<char> = Vec::new();
    let mut i: usize = 0;
    while i < n
        invariant
            i <= n,
            n == s@.len(),
            v@ == s@.subrange(0, i as int),
        decreases n - i,
    {
        v.push(s.get_char(i));
        i = i + 1;
        proof {
            assert(v@ =~= s@.subrange(0, i as int));
        }
    }
    proof {
        assert(v@ =~= s@);
    }
    v
}

/// The index of the marker standing at position `i` of `v`, if one does.
fn try_marker(v: &Vec<char>, i: usize) -> (r: Option<u64>)
    requires
        i < v@.len(),
    ensures
        match r {
            Option::Some(n) => is_marker_at(v@, i as int) && n as nat == marker_val_at(
                v@,
                i as int,
            ) && n < 1000000000,
            Option::None => !is_marker_at(v@, i as int),
        },
{
    let n_chars = v.len();
    if !(v[i] == '{') {
        return None;
    }
    if i + 1 >= n_chars || !(v[i + 1] == '{') {
        return None;
    }
    if i + 2 >= n_chars || !(v[i + 2] == 'c' || v[i + 2] == 'C') {
        return None;
    }
    let mut j: usize = i + 3;
    let mut k: usize = 0;
    let mut val: u64 = 0;
    while j < n_chars && k < 10 && is_digit_exec(v[j])
        invariant
            i + 3 <= j <= n_chars,
            n_chars == v@.len(),
            i + 2 < n_chars,
            j == i + 3 + k,
            k <= 10,
            forall|m: int| i + 3 <= m < j ==> is_digit(#[trigger] v@[m]),
            k <= 9 ==> val == digits_val(v@.subrange(i + 3, j as int)) && val < pow10(k as nat),
            val < 1000000000,
        decreases n_chars - j,
    {
        if k < 9 {
            proof {
                lemma_pow10_mono(k as nat, 8);
                assert(pow10(8) == 100000000) by {
                    reveal_with_fuel(pow10, 9);
                }
                assert(pow10(9) == 1000000000) by {
                    reveal_with_fuel(pow10, 10);
                }
                assert(pow10((k + 1) as nat) == 10 * pow10(k as nat));
                let sub_old = v@.subrange(i + 3, j as int);
                let sub_new = v@.subrange(i + 3, j as int + 1);
                assert(sub_new.drop_last() =~= sub_old);
                assert(sub_new.last() == v@[j as int]);
            }
            let d = (v[j] as u32 - 48) as u64;
            val = val * 10 + d;
            proof {
                lemma_pow10_mono((k + 1) as nat, 9);
            }
        }
        j = j + 1;
        k = k + 1;
    }
    // The digit run at i + 3 has exactly length k when k <= 9, and length
    // at least 10 otherwise; a marker's run is at most 9 digits long.
    if k == 10 {
        proof {
            lemma_run_len_ge(v@, i + 3, 10);
        }
        return None;
    }
    proof {
        lemma_run_len_exact(v@, i + 3, k as int);
    }
    if k == 0 {
        return None;
    }
    if n_chars - j < 2 {
        return None;
    }
    if v[j] == ':' && v[j + 1] == ':' {
        Some(val)
    } else {
        None
    }
}

fn vec_contains(v: &Vec<u64>, x: u64) -> (b: bool)
    ensures
        b == v@.contains(x),
{
    let mut a: usize = 0;
    while a < v.len()
        invariant
            a <= v@.len(),
            forall|m: int| 0 <= m < a ==> v@[m] != x,
        decreases v@.len() - a,
    {
        if v[a] == x {
            return true;
        }
        a = a + 1;
    }
    false
}

/// Unfolding step of `dedup` at the back.
proof fn lemma_dedup_push(s: Seq<nat>, x: nat)
    ensures
        dedup(s.push(x)) == (if dedup(s).contains(x) {
            dedup(s)
        } else {
            dedup(s).push(x)
        }),
{
    assert(s.push(x).drop_last() =~= s);
    assert(s.push(x).last() == x);
}

/// `dedup` keeps exactly the elements of its input.
pub proof fn lemma_dedup_contains(s: Seq<nat>)
    ensures
        forall|n: nat| s.contains(n) ==> #[trigger] dedup(s).contains(n),
        forall|n: nat| #[trigger] dedup(s).contains(n) ==> s.contains(n),
    decreases s.len(),
{
    if s.len() > 0 {
        let t = s.drop_last();
        lemma_dedup_contains(t);
        let d = dedup(t);
        assert forall|n: nat| s.contains(n) implies #[trigger] dedup(s).contains(n) by {
            let w = choose|w: int| 0 <= w < s.len() && s[w] == n;
            if w < s.len() - 1 {
                assert(t[w] == n);
                assert(t.contains(n));
                assert(d.contains(n));
                let u = choose|u: int| 0 <= u < d.len() && d[u] == n;
                if d.contains(s.last()) {
                    assert(dedup(s)[u] == n);
                } else {
                    assert(dedup(s)[u] == n);
                }
            } else {
                if d.contains(s.last()) {
                    let u = choose|u: int| 0 <= u < d.len() && d[u] == s.last();
                    assert(dedup(s)[u] == n);
                } else {
                    assert(dedup(s)[d.len() as int] == n);
                }
            }
        }
        assert forall|n: nat| #[trigger] dedup(s).contains(n) implies s.contains(n) by {
            let u = choose|u: int| 0 <= u < dedup(s).len() && dedup(s)[u] == n;
            if d.contains(s.last()) {
                assert(d[u] == n);
                assert(d.contains(n));
                assert(t.contains(n));
                let w = choose|w: int| 0 <= w < t.len() && t[w] == n;
                assert(s[w] == n);
            } else {
                if u < d.len() {
                    assert(d[u] == n);
                    assert(d.contains(n));
                    assert(t.contains(n));
                    let w = choose|w: int| 0 <= w < t.len() && t[w] == n;
                    assert(s[w] == n);
                } else {
                    assert(n == s.last());
                    assert(s[s.len() - 1] == n);
                }
            }
        }
    }
}

/// `dedup` never repeats an element.
pub proof fn lemma_dedup_no_duplicates(s: Seq<nat>)
    ensures
        dedup(s).no_duplicates(),
    decreases s.len(),
{
    if s.len() > 0 {
        lemma_dedup_no_duplicates(s.drop_last());
        let d = dedup(s.drop_last());
        if !d.contains(s.last()) {
            assert forall|a: int, b: int|
                0 <= a < d.push(s.last()).len() && 0 <= b < d.push(s.last()).len() && a
                    != b implies d.push(s.last())[a] != d.push(s.last())[b] by {
                if a < d.len() && b < d.len() {
                } else if a == d.len() {
                    assert(d.push(s.last())[b] == d[b]);
                    assert(!d.contains(s.last()));
                } else {
                    assert(d.push(s.last())[a] == d[a]);
                    assert(!d.contains(s.last()));
                }
            }
        }
    }
}

/// The distinct marker indices across all field values of a note, in
/// first-occurrence order (fields scanned in order, each from the front).
/// Every index is at least 1 and below ten to the ninth.
pub fn cloze_ords(fields: &Vec<String>) -> (r: Vec<u64>)
    ensures
        r@.map_values(|x: u64| x as nat) == dedup(note_markers(fields.deep_view())),
        forall|a: int| 0 <= a < r@.len() ==> 1 <= #[trigger] r@[a] < 1000000000,
{
    let ghost dv = fields.deep_view();
    let mut r: Vec<u64> = Vec::new();
    let mut f: usize = 0;
    while f < fields.len()
        invariant
            f <= fields@.len(),
            dv == fields.deep_view(),
            dv.len() == fields@.len(),
            r@.map_values(|x: u64| x as nat) == dedup(collected(dv, f as int)),
            forall|a: int| 0 <= a < r@.len() ==> 1 <= #[trigger] r@[a] < 1000000000,
        decreases fields@.len() - f,
    {
        let cv = chars_vec(fields[f].as_str());
        proof {
            assert(cv@ == dv[f as int]);
        }
        let n_chars = cv.len();
        let mut i: usize = 0;
        while i < n_chars
            invariant
                i <= n_chars,
                n_chars == cv@.len(),
                f < fields@.len(),
                dv == fields.deep_view(),
                dv.len() == fields@.len(),
                cv@ == dv[f as int],
                r@.map_values(|x: u64| x as nat) == dedup(
                    collected(dv, f as int) + scanned(cv@, i as int),
                ),
                forall|a: int| 0 <= a < r@.len() ==> 1 <= #[trigger] r@[a] < 1000000000,
            decreases n_chars - i,
        {
            let ghost pre = collected(dv, f as int) + scanned(cv@, i as int);
            let found = try_marker(&cv, i);
            match found {
                Option::Some(n) => {
                    if n >= 1 {
                        let present = vec_contains(&r, n);
                        proof {
                            lemma_dedup_push(pre, n as nat);
                            // r contains n exactly when dedup(pre) does.
                            let mapped = r@.map_values(|x: u64| x as nat);
                            if present {
                                let w = choose|w: int| 0 <= w < r@.len() && r@[w] == n;
                                assert(mapped[w] == n as nat);
                                assert(dedup(pre).contains(n as nat));
                            } else {
                                if dedup(pre).contains(n as nat) {
                                    let w = choose|w: int|
                                        0 <= w < mapped.len() && mapped[w] == n as nat;
                                    assert(r@[w] as nat == n as nat);
                                    assert(r@[w] == n);
                                    assert(r@.contains(r@[w]));
                                }
                            }
                        }
                        if !present {
                            let ghost mapped_old = r@.map_values(|x: u64| x as nat);
                            r.push(n);
                            proof {
                                assert(r@.map_values(|x: u64| x as nat) =~= mapped_old.push(
                                    n as nat,
                                ));
                            }
                        }
                    }
                },
                Option::None => {},
            }
            i = i + 1;
            proof {
                let stepped = collected(dv, f as int) + scanned(cv@, i as int);
                if is_marker_at(cv@, i - 1) && marker_val_at(cv@, i - 1) >= 1 {
                    assert(scanned(cv@, i as int) == scanned(cv@, i - 1) + seq![
                        marker_val_at(cv@, i - 1),
                    ]);
                    assert(stepped =~= pre.push(marker_val_at(cv@, i - 1)));
                } else {
                    assert(scanned(cv@, i as int) == scanned(cv@, i - 1) + Seq::<nat>::empty());
                    assert(stepped =~= pre);
                }
            }
        }
        f = f + 1;
        proof {
            assert(collected(dv, f as int) == collected(dv, f - 1) + field_markers(
                dv[f - 1],
            ));
            assert(scanned(cv@, n_chars as int) == field_markers(dv[f - 1]));
        }
    }
    proof {
        assert(collected(dv, f as int) == note_markers(dv));
    }
    r
}

/// Everything `scanned` collects is a genuine marker index of `s`.
proof fn lemma_scanned_sound(s: Seq<char>, i: int)
    ensures
        forall|w: int|
            0 <= w < scanned(s, i).len() ==> #[trigger] scanned(s, i)[w] >= 1 && exists|m: int|
                0 <= m < i && is_marker_at(s, m) && marker_val_at(s, m) == scanned(s, i)[w],
    decreases i,
{
    if i > 0 {
        lemma_scanned_sound(s, i - 1);
        assert forall|w: int| 0 <= w < scanned(s, i).len() implies #[trigger] scanned(s, i)[w] >= 1
            && exists|m: int|
            0 <= m < i && is_marker_at(s, m) && marker_val_at(s, m) == scanned(s, i)[w] by {
            if w < scanned(s, i - 1).len() {
                assert(scanned(s, i)[w] == scanned(s, i - 1)[w]);
                let m = choose|m: int|
                    0 <= m < i - 1 && is_marker_at(s, m) && marker_val_at(s, m) == scanned(
                        s,
                        i - 1,
                    )[w];
                assert(0 <= m < i && is_marker_at(s, m) && marker_val_at(s, m) == scanned(s, i)[w]);
            } else {
                assert(is_marker_at(s, i - 1) && marker_val_at(s, i - 1) == scanned(s, i)[w]);
            }
        }
    }
}

/// Every marker of `s` before position `i` was collected by `scanned`.
proof fn lemma_scanned_complete(s: Seq<char>, i: int, m: int)
    requires
        0 <= m < i,
        is_marker_at(s, m),
        marker_val_at(s, m) >= 1,
    ensures
        scanned(s, i).contains(marker_val_at(s, m)),
    decreases i,
{
    if m == i - 1 {
        let w = scanned(s, i - 1).len() as int;
        assert(scanned(s, i)[w] == marker_val_at(s, m));
    } else {
        lemma_scanned_complete(s, i - 1, m);
        let w = choose|w: int|
            0 <= w < scanned(s, i - 1).len() && #[trigger] scanned(s, i - 1)[w] == marker_val_at(
                s,
                m,
            );
        assert(scanned(s, i)[w] == marker_val_at(s, m));
    }
}

/// The scan of one field finds exactly the field's distinct cloze indices.
proof fn lemma_field_markers_set(s: Seq<char>)
    ensures
        field_markers(s).to_set() == cloze_indices(s),
{
    let fm = field_markers(s);
    assert forall|n: nat| fm.to_set().contains(n) implies cloze_indices(s).contains(n) by {
        lemma_scanned_sound(s, s.len() as int);
        let w = choose|w: int| 0 <= w < fm.len() && fm[w] == n;
        let m = choose|m: int|
            0 <= m < s.len() && is_marker_at(s, m) && marker_val_at(s, m) == fm[w];
        lemma_marker_forms(s, m);
        let k = run_len(s, m + 3) as int;
        assert(marker_with_len_at(s, m, k) && digits_val(s.subrange(m + 3, m + 3 + k)) == n);
    }
    assert forall|n: nat| cloze_indices(s).contains(n) implies fm.to_set().contains(n) by {
        let (i, k) = choose|i: int, k: int|
            marker_with_len_at(s, i, k) && digits_val(s.subrange(i + 3, i + 3 + k)) == n;
        lemma_marker_forms(s, i);
        assert(is_marker_at(s, i) && marker_val_at(s, i) == n);
        lemma_scanned_complete(s, s.len() as int, i);
        let w = choose|w: int| 0 <= w < fm.len() && fm[w] == n;
        assert(fm.to_set().contains(n));
    }
    assert(fm.to_set() =~= cloze_indices(s));
}

/// The collected scan of the first `f` fields finds exactly the distinct
/// cloze indices of those fields.
proof fn lemma_collected_set(fields: Seq<Seq<char>>, f: int)
    requires
        0 <= f <= fields.len(),
    ensures
        forall|n: nat|
            collected(fields, f).to_set().contains(n) <==> exists|g: int|
                0 <= g < f && (#[trigger] cloze_indices(fields[g])).contains(n),
    decreases f,
{
    if f > 0 {
        lemma_collected_set(fields, f - 1);
        lemma_field_markers_set(fields[f - 1]);
        let whole = collected(fields, f);
        let front = collected(fields, f - 1);
        let back = field_markers(fields[f - 1]);
        assert forall|n: nat| whole.to_set().contains(n) implies exists|g: int|
            0 <= g < f && (#[trigger] cloze_indices(fields[g])).contains(n) by {
            let w = choose|w: int| 0 <= w < whole.len() && whole[w] == n;
            if w < front.len() {
                assert(front[w] == n);
                assert(front.to_set().contains(n));
            } else {
                assert(back[w - front.len()] == n);
                assert(back.to_set().contains(n));
                assert(cloze_indices(fields[f - 1]).contains(n));
            }
        }
        assert forall|n: nat| exists|g: int|
            0 <= g < f && (#[trigger] cloze_indices(fields[g])).contains(n) implies
            whole.to_set().contains(n) by {
            let g = choose|g: int| 0 <= g < f && cloze_indices(fields[g]).contains(n);
            if g < f - 1 {
                assert(front.to_set().contains(n));
                let w = choose|w: int| 0 <= w < front.len() && front[w] == n;
                assert(whole[w] == n);
            } else {
                assert(back.to_set().contains(n));
                let w = choose|w: int| 0 <= w < back.len() && back[w] == n;
                assert(whole[front.len() + w] == n);
            }
        }
    }
}

/// Cross-field aggregation: the distinct cloze indices of a note depend only
/// on the set of its field texts, not on which field carries which marker —
/// redistributing the same texts over the fields leaves the index set
/// unchanged.
pub proof fn lemma_cloze_cross_field(a: Seq<Seq<char>>, b: Seq<Seq<char>>)
    requires
        a.to_set() == b.to_set(),
    ensures
        note_cloze_indices(a) == note_cloze_indices(b),
{
    assert forall|n: nat| note_cloze_indices(a).contains(n) implies note_cloze_indices(b).contains(
        n,
    ) by {
        let f = choose|f: int| 0 <= f < a.len() && (#[trigger] cloze_indices(a[f])).contains(n);
        assert(a.contains(a[f]));
        assert(b.to_set().contains(a[f]));
        let g = choose|g: int| 0 <= g < b.len() && b[g] == a[f];
        assert(cloze_indices(b[g]).contains(n));
    }
    assert forall|n: nat| note_cloze_indices(b).contains(n) implies note_cloze_indices(a).contains(
        n,
    ) by {
        let f = choose|f: int| 0 <= f < b.len() && (#[trigger] cloze_indices(b[f])).contains(n);
        assert(b.contains(b[f]));
        assert(a.to_set().contains(b[f]));
        let g = choose|g: int| 0 <= g < a.len() && a[g] == b[f];
        assert(cloze_indices(a[g]).contains(n));
    }
    assert(note_cloze_indices(a) =~= note_cloze_indices(b));
}

/// The full scan of a note finds exactly the note's distinct cloze indices,
/// wherever they stand: an index counts once whichever field values carry it
/// and however the markers are spread across them.
pub proof fn lemma_note_markers_set(fields: Seq<Seq<char>>)
    ensures
        note_markers(fields).to_set() == note_cloze_indices(fields),
{
    lemma_collected_set(fields, fields.len() as int);
    assert(note_markers(fields).to_set() =~= note_cloze_indices(fields));
}

/// The cloze ordinals of a note are exactly its distinct cloze indices, each
/// minus one — the same set regardless of which field value carries which
/// marker — without duplicates; when no marker occurs anywhere the single
/// fallback ordinal 0 is produced.
pub proof fn lemma_cloze_ordinals(fields: Seq<Seq<char>>)
    ensures
        cloze_ord_seq(fields).no_duplicates(),
        note_cloze_indices(fields).is_empty() ==> cloze_ord_seq(fields) == seq![0int],
        !note_cloze_indices(fields).is_empty() ==> cloze_ord_seq(fields).to_set()
            == note_cloze_indices(fields).map(|n: nat| n - 1),
{
    let nm = note_markers(fields);
    let d = dedup(nm);
    let indices = note_cloze_indices(fields);
    lemma_note_markers_set(fields);
    lemma_dedup_contains(nm);
    lemma_dedup_no_duplicates(nm);
    // Every collected index is a member of the index set, hence at least 1.
    assert forall|w: int| 0 <= w < d.len() implies #[trigger] d[w] >= 1 by {
        assert(d.contains(d[w]));
        assert(nm.contains(d[w]));
        assert(nm.to_set().contains(d[w]));
        assert(indices.contains(d[w]));
        let g = choose|g: int|
            0 <= g < fields.len() && (#[trigger] cloze_indices(fields[g])).contains(d[w]);
        assert(cloze_indices(fields[g]).contains(d[w]));
    }
    if indices.is_empty() {
        if d.len() > 0 {
            assert(d.contains(d[0]));
            assert(nm.contains(d[0]));
            assert(nm.to_set().contains(d[0]));
            assert(false);
        }
    } else {
        let n0 = choose|n0: nat| indices.contains(n0);
        assert(nm.to_set().contains(n0));
        assert(nm.contains(n0));
        assert(d.contains(n0));
        assert(d.len() > 0);
        let ords = d.map_values(|n: nat| n - 1);
        assert forall|a: int, b: int|
            0 <= a < ords.len() && 0 <= b < ords.len() && a != b implies ords[a] != ords[b] by {
            assert(d[a] >= 1 && d[b] >= 1);
            assert(d[a] != d[b]);
        }
        assert(ords.to_set() =~= indices.map(|n: nat| n - 1)) by {
            assert forall|x: int| ords.to_set().contains(x) implies indices.map(
                |n: nat| n - 1,
            ).contains(x) by {
                let w = choose|w: int| 0 <= w < ords.len() && ords[w] == x;
                assert(d.contains(d[w]));
                assert(nm.to_set().contains(d[w]));
                assert(indices.contains(d[w]));
                assert(d[w] - 1 == x);
            }
            assert forall|x: int| indices.map(|n: nat| n - 1).contains(x) implies
                ords.to_set().contains(x) by {
                let n = choose|n: nat| indices.contains(n) && n - 1 == x;
                assert(nm.to_set().contains(n));
                assert(nm.contains(n));
                assert(d.contains(n));
                let w = choose|w: int| 0 <= w < d.len() && d[w] == n;
                assert(ords[w] == x);
                assert(ords.contains(x));
            }
        }
    }
}

} // verus!
