//! Conversions between `str`/`String` and character vectors, so that the rest of
//! the library can work on `Vec<char>` with exact views.

use vstd::prelude::*;

verus! {

/// Relies on `Iterator::collect` over `str::chars`: the characters of `s`, in order.
#[verifier::external_body]
pub fn chars_of(s: &str) -> (r: Vec<char>)
    ensures
        r@ == s@,
{
    s.chars().collect()
}

/// Relies on `String: FromIterator<char>`: the string made of the characters of `v`, in order.
#[verifier::external_body]
pub fn string_of(v: &[char]) -> (r: String)
    ensures
        r@ == v@,
{
    v.iter().collect()
}

} // verus!

verus! {

/// Whether two texts are the same characters.
pub fn same_text(a: &str, b: &str) -> (r: bool)
    ensures
        r == (a@ == b@),
{
    let x = chars_of(a);
    let y = chars_of(b);
    if x.len() != y.len() {
        return false;
    }
    let mut i: usize = 0;
    while i < x.len()
        invariant
            x@ == a@,
            y@ == b@,
            x@.len() == y@.len(),
            i <= x@.len(),
            forall|j: int| 0 <= j < i ==> x@[j] == y@[j],
        decreases x@.len() - i,
    {
        if x[i] != y[i] {
            return false;
        }
        i += 1;
    }
    assert(x@ =~= y@);
    true
}

} // verus!

verus! {

/// Whether some entry of `ps` has key `k`.
pub open spec fn has_key<V>(ps: Seq<(Seq<char>, V)>, k: Seq<char>) -> bool {
    exists|i: int| 0 <= i < ps.len() && (#[trigger] ps[i]).0 == k
}

/// `i` is the first entry of `ps` with key `k`.
pub open spec fn first_key_at<V>(ps: Seq<(Seq<char>, V)>, k: Seq<char>, i: int) -> bool {
    0 <= i < ps.len() && ps[i].0 == k && forall|j: int| 0 <= j < i ==> (#[trigger] ps[j]).0 != k
}

/// The view of an optional text.
pub open spec fn opt_string_view(v: Option<String>) -> Option<Seq<char>> {
    match v {
        Some(s) => Some(s@),
        None => None,
    }
}

/// Text keys with text values, in insertion order, looked up by the first entry with a key.
pub struct TextMap {
    entries: Vec<(String, String)>,
}

impl View for TextMap {
    type V = Seq<(Seq<char>, Seq<char>)>;

    closed spec fn view(&self) -> Seq<(Seq<char>, Seq<char>)> {
        self.entries@.map_values(|e: (String, String)| (e.0@, e.1@))
    }
}

impl TextMap {
    pub fn new() -> (r: Self)
        ensures
            r@ == Seq::<(Seq<char>, Seq<char>)>::empty(),
    {
        let r = TextMap { entries: Vec::new() };
        assert(r@ =~= Seq::<(Seq<char>, Seq<char>)>::empty());
        r
    }

    pub fn len(&self) -> (r: usize)
        ensures
            r == self@.len(),
    {
        self.entries.len()
    }

    pub fn is_empty(&self) -> (r: bool)
        ensures
            r == (self@.len() == 0),
    {
        self.entries.len() == 0
    }

    /// A copy with the same entries.
    pub fn duplicate(&self) -> (r: Self)
        ensures
            r@ == self@,
    {
        let mut entries: Vec<(String, String)> = Vec::new();
        let mut i: usize = 0;
        while i < self.entries.len()
            invariant
                i <= self.entries@.len(),
                entries@.map_values(|e: (String, String)| (e.0@, e.1@))
                    == self.entries@.map_values(|e: (String, String)| (e.0@, e.1@)).subrange(0, i as int),
            decreases self.entries@.len() - i,
        {
            let ghost before = entries@.map_values(|e: (String, String)| (e.0@, e.1@));
            let e = (self.entries[i].0.clone(), self.entries[i].1.clone());
            assert(e.0@ == self.entries@[i as int].0@ && e.1@ == self.entries@[i as int].1@);
            entries.push(e);
            assert(entries@.map_values(|e: (String, String)| (e.0@, e.1@)) =~= before.push((e.0@, e.1@)));
            assert(entries@.map_values(|e: (String, String)| (e.0@, e.1@)) =~=
                self.entries@.map_values(|e: (String, String)| (e.0@, e.1@)).subrange(0, i + 1));
            i += 1;
        }
        let r = TextMap { entries };
        assert(r@ =~= self@);
        r
    }

    /// The `i`-th key and value.
    pub fn entry(&self, i: usize) -> (r: (&String, &String))
        requires
            i < self@.len(),
        ensures
            (r.0@, r.1@) == self@[i as int],
    {
        let e = &self.entries[i];
        (&e.0, &e.1)
    }

    fn index_of(&self, key: &str) -> (r: Option<usize>)
        ensures
            r matches Some(i) ==> first_key_at(self@, key@, i as int),
            r is None ==> !has_key(self@, key@),
    {
        let mut i: usize = 0;
        while i < self.entries.len()
            invariant
                i <= self@.len(),
                self@.len() == self.entries@.len(),
                forall|j: int| 0 <= j < i ==> (#[trigger] self@[j]).0 != key@,
            decreases self@.len() - i,
        {
            if same_text(self.entries[i].0.as_str(), key) {
                return Some(i);
            }
            i += 1;
        }
        None
    }

    /// The value of the first entry with key `key`.
    pub fn get(&self, key: &str) -> (r: Option<String>)
        ensures
            opt_string_view(r) == lookup_first(self@, key@),
            r is None <==> !has_key(self@, key@),
            r matches Some(v) ==> exists|i: int| first_key_at(self@, key@, i) && self@[i].1 == v@,
    {
        proof { lemma_lookup_first(self@, key@); }
        match self.index_of(key) {
            Some(i) => {
                let v = self.entries[i].1.clone();
                assert(first_key_at(self@, key@, i as int) && self@[i as int].1 == v@);
                Some(v)
            },
            None => None,
        }
    }

    /// Sets `key` to `value`: the first entry with that key is replaced, or a new one is added.
    pub fn insert(&mut self, key: String, value: String)
        ensures
            final(self)@ == set_entry(old(self)@, key@, value@),
            !has_key(old(self)@, key@) ==> final(self)@ == old(self)@.push((key@, value@)),
            has_key(old(self)@, key@) ==> exists|i: int|
                first_key_at(old(self)@, key@, i) && final(self)@ == old(self)@.update(i, (key@, value@)),
    {
        match self.index_of(key.as_str()) {
            Some(i) => {
                let ghost kv = (key@, value@);
                proof { lemma_set_entry(self@, key@, value@); }
                self.entries.set(i, (key, value));
                assert(self@ =~= old(self)@.update(i as int, kv));
            },
            None => {
                let ghost kv = (key@, value@);
                proof { lemma_set_entry(self@, key@, value@); }
                self.entries.push((key, value));
                assert(self@ =~= old(self)@.push(kv));
            },
        }
    }

    /// Adds `key` with `value` unless `key` is empty or already present.
    pub fn insert_first(&mut self, key: String, value: String)
        ensures
            final(self)@ == add_first(old(self)@, key@, value@),
    {
        if key.as_str().is_empty() {
            return;
        }
        match self.index_of(key.as_str()) {
            Some(_) => {},
            None => {
                let ghost kv = (key@, value@);
                self.entries.push((key, value));
                assert(self@ =~= old(self)@.push(kv));
            },
        }
    }
}

/// `ps` with the first entry of key `k` set to `v`, or `(k, v)` added when there is none.
pub open spec fn set_entry<V>(ps: Seq<(Seq<char>, V)>, k: Seq<char>, v: V) -> Seq<(Seq<char>, V)>
    decreases ps.len(),
{
    if ps.len() == 0 {
        seq![(k, v)]
    } else if ps[0].0 == k {
        ps.update(0, (k, v))
    } else {
        seq![ps[0]] + set_entry(ps.drop_first(), k, v)
    }
}

pub proof fn lemma_set_entry<V>(ps: Seq<(Seq<char>, V)>, k: Seq<char>, v: V)
    ensures
        !has_key(ps, k) ==> set_entry(ps, k, v) == ps.push((k, v)),
        forall|i: int| first_key_at(ps, k, i) ==> set_entry(ps, k, v) == ps.update(i, (k, v)),
    decreases ps.len(),
{
    if ps.len() > 0 {
        let t = ps.drop_first();
        lemma_set_entry(t, k, v);
        if !has_key(ps, k) {
            assert(ps[0].0 != k);
            assert(!has_key(t, k)) by {
                if has_key(t, k) {
                    let j = choose|j: int| 0 <= j < t.len() && (#[trigger] t[j]).0 == k;
                    assert(ps[j + 1].0 == k);
                }
            }
            assert(set_entry(ps, k, v) =~= ps.push((k, v)));
        }
        assert forall|i: int| first_key_at(ps, k, i) implies set_entry(ps, k, v) == ps.update(i, (k, v)) by {
            if i > 0 {
                assert(ps[0].0 != k);
                assert(first_key_at(t, k, i - 1)) by {
                    assert forall|j: int| 0 <= j < i - 1 implies (#[trigger] t[j]).0 != k by {
                        assert(ps[j + 1].0 != k);
                    }
                }
                assert(set_entry(ps, k, v) =~= ps.update(i, (k, v)));
            }
        }
    } else {
        assert(set_entry(ps, k, v) =~= ps.push((k, v)));
    }
}

pub proof fn lemma_first_key_exists<V>(ps: Seq<(Seq<char>, V)>, k: Seq<char>)
    requires
        has_key(ps, k),
    ensures
        exists|i: int| first_key_at(ps, k, i),
    decreases ps.len(),
{
    if ps[0].0 == k {
        assert(first_key_at(ps, k, 0));
    } else {
        let t = ps.drop_first();
        let j = choose|j: int| 0 <= j < ps.len() && (#[trigger] ps[j]).0 == k;
        assert(t[j - 1].0 == k);
        lemma_first_key_exists(t, k);
        let i = choose|i: int| first_key_at(t, k, i);
        assert forall|q: int| 0 <= q < i + 1 implies (#[trigger] ps[q]).0 != k by {
            if q > 0 {
                assert(ps[q] == t[q - 1]);
            }
        }
        assert(first_key_at(ps, k, i + 1));
    }
}

/// The value of the first entry of key `k`.
pub open spec fn lookup_first<V>(ps: Seq<(Seq<char>, V)>, k: Seq<char>) -> Option<V>
    decreases ps.len(),
{
    if ps.len() == 0 {
        None
    } else if ps[0].0 == k {
        Some(ps[0].1)
    } else {
        lookup_first(ps.drop_first(), k)
    }
}

pub proof fn lemma_lookup_first<V>(ps: Seq<(Seq<char>, V)>, k: Seq<char>)
    ensures
        !has_key(ps, k) ==> lookup_first(ps, k) is None,
        forall|i: int| first_key_at(ps, k, i) ==> lookup_first(ps, k) == Some(ps[i].1),
    decreases ps.len(),
{
    if ps.len() > 0 {
        let t = ps.drop_first();
        lemma_lookup_first(t, k);
        if !has_key(ps, k) {
            assert(ps[0].0 != k);
            assert(!has_key(t, k)) by {
                if has_key(t, k) {
                    let j = choose|j: int| 0 <= j < t.len() && (#[trigger] t[j]).0 == k;
                    assert(ps[j + 1].0 == k);
                }
            }
        }
        assert forall|i: int| first_key_at(ps, k, i) implies lookup_first(ps, k) == Some(ps[i].1) by {
            if i > 0 {
                assert(ps[0].0 != k);
                assert(first_key_at(t, k, i - 1)) by {
                    assert forall|j: int| 0 <= j < i - 1 implies (#[trigger] t[j]).0 != k by {
                        assert(ps[j + 1].0 != k);
                    }
                }
            }
        }
    }
}

/// `ps` with `(k, v)` added, unless `k` is empty or already present.
pub open spec fn add_first(ps: Seq<(Seq<char>, Seq<char>)>, k: Seq<char>, v: Seq<char>) -> Seq<(Seq<char>, Seq<char>)> {
    if k.len() == 0 || has_key(ps, k) {
        ps
    } else {
        ps.push((k, v))
    }
}

} // verus!

verus! {

/// `s` with every non-overlapping occurrence of `pat`, scanning from the left, replaced by `rep`.
pub open spec fn replaced(s: Seq<char>, pat: Seq<char>, rep: Seq<char>) -> Seq<char>
    decreases s.len(),
{
    if pat.len() == 0 || s.len() < pat.len() {
        s
    } else if s.subrange(0, pat.len() as int) == pat {
        rep + replaced(s.subrange(pat.len() as int, s.len() as int), pat, rep)
    } else {
        seq![s[0]] + replaced(s.drop_first(), pat, rep)
    }
}

fn starts_at(s: &Vec<char>, i: usize, pat: &Vec<char>) -> (r: bool)
    requires
        i <= s@.len(),
    ensures
        r == (s@.len() - i >= pat@.len() && s@.subrange(i as int, i + pat@.len()) == pat@),
{
    if s.len() - i < pat.len() {
        return false;
    }
    let mut k: usize = 0;
    while k < pat.len()
        invariant
            k <= pat@.len(),
            i + pat@.len() <= s.len(),
            forall|q: int| 0 <= q < k ==> s@[i + q] == pat@[q],
        decreases pat@.len() - k,
    {
        if s[i + k] != pat[k] {
            assert(s@.subrange(i as int, i + pat@.len())[k as int] != pat@[k as int]);
            return false;
        }
        k += 1;
    }
    assert(s@.subrange(i as int, i + pat@.len()) =~= pat@);
    true
}

/// Replaces every non-overlapping occurrence of `pat` in `s`, from the left, by `rep`.
pub fn replace_all(s: &Vec<char>, pat: &Vec<char>, rep: &Vec<char>) -> (r: Vec<char>)
    ensures
        r@ == replaced(s@, pat@, rep@),
{
    if pat.len() == 0 {
        return s.clone();
    }
    let mut out: Vec<char> = Vec::new();
    let mut i: usize = 0;
    assert(s@.subrange(0, s@.len() as int) =~= s@);
    assert(out@ + replaced(s@, pat@, rep@) =~= replaced(s@, pat@, rep@));
    while i < s.len()
        invariant
            i <= s@.len(),
            pat@.len() > 0,
            out@ + replaced(s@.subrange(i as int, s@.len() as int), pat@, rep@) == replaced(s@, pat@, rep@),
        decreases s@.len() - i,
    {
        let ghost rest = s@.subrange(i as int, s@.len() as int);
        if starts_at(s, i, pat) {
            assert(rest.subrange(0, pat@.len() as int) =~= s@.subrange(i as int, i + pat@.len()));
            assert(rest.subrange(pat@.len() as int, rest.len() as int) =~= s@.subrange(i + pat@.len(), s@.len() as int));
            let mut k: usize = 0;
            let ghost before = out@;
            while k < rep.len()
                invariant
                    k <= rep@.len(),
                    out@ == before + rep@.subrange(0, k as int),
                decreases rep@.len() - k,
            {
                out.push(rep[k]);
                assert(before + rep@.subrange(0, k + 1) =~= before + rep@.subrange(0, k as int) + seq![rep@[k as int]]);
                k += 1;
            }
            assert(rep@.subrange(0, rep@.len() as int) =~= rep@);
            assert(out@ + replaced(s@.subrange(i + pat@.len(), s@.len() as int), pat@, rep@) =~= before + replaced(rest, pat@, rep@));
            i += pat.len();
        } else {
            proof {
                if rest.len() >= pat@.len() {
                    assert(rest.subrange(0, pat@.len() as int) =~= s@.subrange(i as int, i + pat@.len()));
                }
            }
            assert(rest.drop_first() =~= s@.subrange(i + 1, s@.len() as int));
            let ghost before = out@;
            out.push(s[i]);
            assert(out@ + replaced(s@.subrange(i + 1, s@.len() as int), pat@, rep@) =~= before + replaced(rest, pat@, rep@));
            i += 1;
        }
    }
    assert(s@.subrange(s@.len() as int, s@.len() as int) =~= Seq::<char>::empty());
    assert(out@ + Seq::<char>::empty() =~= out@);
    out
}

/// The decimal digits of `n`.
pub open spec fn decimal(n: nat) -> Seq<char>
    decreases n,
{
    if n < 10 {
        seq![digit_char(n)]
    } else {
        decimal(n / 10) + seq![digit_char(n % 10)]
    }
}

pub open spec fn digit_char(d: nat) -> char {
    if d == 0 { '0' } else if d == 1 { '1' } else if d == 2 { '2' } else if d == 3 { '3' }
    else if d == 4 { '4' } else if d == 5 { '5' } else if d == 6 { '6' } else if d == 7 { '7' }
    else if d == 8 { '8' } else { '9' }
}

fn digit_exec(d: u64) -> (c: char)
    requires
        d < 10,
    ensures
        c == digit_char(d as nat),
{
    if d == 0 { '0' } else if d == 1 { '1' } else if d == 2 { '2' } else if d == 3 { '3' }
    else if d == 4 { '4' } else if d == 5 { '5' } else if d == 6 { '6' } else if d == 7 { '7' }
    else if d == 8 { '8' } else { '9' }
}

/// The decimal digits of `n`.
pub fn decimal_chars(n: u64) -> (r: Vec<char>)
    ensures
        r@ == decimal(n as nat),
    decreases n,
{
    if n < 10 {
        let mut v: Vec<char> = Vec::new();
        v.push(digit_exec(n));
        assert(v@ =~= decimal(n as nat));
        v
    } else {
        let mut v = decimal_chars(n / 10);
        v.push(digit_exec(n % 10));
        v
    }
}

} // verus!

verus! {

/// `pat` occurs in `s` at `i`.
pub open spec fn occurs_at(s: Seq<char>, pat: Seq<char>, i: int) -> bool {
    0 <= i && i + pat.len() <= s.len() && s.subrange(i, i + pat.len()) == pat
}

/// The first position at or after `from` where `pat` occurs in `s`.
pub open spec fn find_from(s: Seq<char>, pat: Seq<char>, from: int) -> Option<int>
    decreases s.len() + 1 - from,
{
    if from < 0 || from + pat.len() > s.len() {
        None
    } else if occurs_at(s, pat, from) {
        Some(from)
    } else {
        find_from(s, pat, from + 1)
    }
}

pub proof fn lemma_find_from(s: Seq<char>, pat: Seq<char>, from: int)
    requires
        0 <= from,
    ensures
        find_from(s, pat, from) matches Some(i) ==> from <= i && occurs_at(s, pat, i),
    decreases s.len() + 1 - from,
{
    if from + pat.len() <= s.len() && !occurs_at(s, pat, from) {
        lemma_find_from(s, pat, from + 1);
    }
}

/// The pieces of `s` between the occurrences of a non-empty `pat`, from the left.
pub open spec fn split_on(s: Seq<char>, pat: Seq<char>) -> Seq<Seq<char>>
    decreases s.len(),
{
    if pat.len() == 0 {
        seq![s]
    } else {
        match find_from(s, pat, 0) {
            None => seq![s],
            Some(i) => if 0 <= i && i + pat.len() <= s.len() {
                seq![s.subrange(0, i)] + split_on(s.subrange(i + pat.len(), s.len() as int), pat)
            } else {
                seq![s]
            },
        }
    }
}

/// The first position at or after `from` where `pat` occurs in `s`.
pub fn find_text(s: &Vec<char>, pat: &Vec<char>, from: usize) -> (r: Option<usize>)
    ensures
        r matches Some(i) ==> find_from(s@, pat@, from as int) == Some(i as int),
        r is None ==> find_from(s@, pat@, from as int) is None,
{
    if pat.len() == 0 {
        if from <= s.len() {
            assert(s@.subrange(from as int, from as int) =~= pat@);
            return Some(from);
        }
        return None;
    }
    let mut i: usize = from;
    while i < s.len() && s.len() - i >= pat.len()
        invariant
            pat@.len() > 0,
            from <= i,
            find_from(s@, pat@, from as int) == find_from(s@, pat@, i as int),
        decreases s@.len() + 1 - i,
    {
        if starts_at(s, i, pat) {
            return Some(i);
        }
        i += 1;
    }
    None
}

/// Copies `s[from..to]`.
pub fn slice_chars(s: &Vec<char>, from: usize, to: usize) -> (r: Vec<char>)
    requires
        from <= to <= s@.len(),
    ensures
        r@ == s@.subrange(from as int, to as int),
{
    let mut r: Vec<char> = Vec::new();
    let mut i: usize = from;
    while i < to
        invariant
            from <= i <= to,
            to <= s@.len(),
            r@ == s@.subrange(from as int, i as int),
        decreases to - i,
    {
        r.push(s[i]);
        assert(s@.subrange(from as int, i + 1) =~= s@.subrange(from as int, i as int).push(s@[i as int]));
        i += 1;
    }
    r
}

/// Splits `s` on every occurrence of `pat`, from the left.
pub fn split_text(s: &Vec<char>, pat: &Vec<char>) -> (r: Vec<Vec<char>>)
    ensures
        r@.map_values(|p: Vec<char>| p@) == split_on(s@, pat@),
{
    let mut out: Vec<Vec<char>> = Vec::new();
    if pat.len() == 0 {
        out.push(s.clone());
        assert(out@.map_values(|p: Vec<char>| p@) =~= split_on(s@, pat@));
        return out;
    }
    let mut start: usize = 0;
    assert(s@.subrange(0, s@.len() as int) =~= s@);
    assert(out@.map_values(|p: Vec<char>| p@) + split_on(s@.subrange(0, s@.len() as int), pat@) =~= split_on(s@, pat@));
    loop
        invariant
            start <= s@.len(),
            pat@.len() > 0,
            out@.map_values(|p: Vec<char>| p@) + split_on(s@.subrange(start as int, s@.len() as int), pat@)
                == split_on(s@, pat@),
        decreases s@.len() - start,
    {
        let rest = slice_chars(s, start, s.len());
        match find_text(&rest, pat, 0) {
            None => {
                let ghost before = out@.map_values(|p: Vec<char>| p@);
                out.push(rest);
                assert(out@.map_values(|p: Vec<char>| p@) =~= before + split_on(s@.subrange(start as int, s@.len() as int), pat@));
                return out;
            },
            Some(i) => {
                proof { lemma_find_from(rest@, pat@, 0); }
                let piece = slice_chars(&rest, 0, i);
                let ghost before = out@.map_values(|p: Vec<char>| p@);
                let ghost next = (start + i + pat@.len()) as int;
                assert(rest@.subrange(i + pat@.len(), rest@.len() as int) =~= s@.subrange(next, s@.len() as int));
                out.push(piece);
                assert(out@.map_values(|p: Vec<char>| p@) + split_on(s@.subrange(next, s@.len() as int), pat@)
                    =~= before + split_on(rest@, pat@));
                start = start + i + pat.len();
            },
        }
    }
}

} // verus!

verus! {

pub open spec fn is_digit(c: char) -> bool {
    '0' <= c && c <= '9'
}

/// The value of a string of decimal digits.
pub open spec fn digits_value(s: Seq<char>) -> nat
    decreases s.len(),
{
    if s.len() == 0 {
        0
    } else {
        digits_value(s.drop_last()) * 10 + ((s.last() as u32 - '0' as u32) as nat)
    }
}

/// The unsigned number written in `s` (an optional `+`, then one or more decimal digits),
/// if it is at most `max`.
pub open spec fn parse_unsigned(s: Seq<char>, max: nat) -> Option<nat> {
    parse_digits(unsigned_digits(s), max)
}

/// `s` without a leading `+`.
pub open spec fn unsigned_digits(s: Seq<char>) -> Seq<char> {
    if s.len() > 0 && s[0] == '+' { s.drop_first() } else { s }
}

pub open spec fn all_digits(d: Seq<char>) -> bool {
    forall|i: int| 0 <= i < d.len() ==> is_digit(#[trigger] d[i])
}

/// The value of the non-empty digit string `d`, if it is at most `max`.
pub open spec fn parse_digits(d: Seq<char>, max: nat) -> Option<nat> {
    if d.len() > 0 && all_digits(d) && digits_value(d) <= max {
        Some(digits_value(d))
    } else {
        None
    }
}

proof fn lemma_digits_value_mono(s: Seq<char>, k: int)
    requires
        0 <= k <= s.len(),
        forall|i: int| 0 <= i < s.len() ==> is_digit(#[trigger] s[i]),
    ensures
        digits_value(s.subrange(0, k)) <= digits_value(s),
    decreases s.len() - k,
{
    if k < s.len() {
        lemma_digits_value_mono(s, k + 1);
        assert(s.subrange(0, k + 1).drop_last() =~= s.subrange(0, k));
    } else {
        assert(s.subrange(0, k) =~= s);
    }
}

/// Parses an unsigned decimal number no greater than `max`, as `str::parse` does for
/// unsigned integers.
pub fn parse_decimal(s: &str, max: u64) -> (r: Option<u64>)
    ensures
        match parse_unsigned(s@, max as nat) {
            Some(v) => r == Some(v as u64),
            None => r is None,
        },
{
    let cs = chars_of(s);
    let start: usize = if cs.len() > 0 && cs[0] == '+' { 1 } else { 0 };
    let ghost d = unsigned_digits(cs@);
    assert(d =~= cs@.subrange(start as int, cs@.len() as int));
    if cs.len() == start {
        return None;
    }
    let mut v: u64 = 0;
    let mut i: usize = start;
    while i < cs.len()
        invariant
            start <= i <= cs@.len(),
            d == cs@.subrange(start as int, cs@.len() as int),
            d == unsigned_digits(s@),
            d.len() > 0,
            cs@ == s@,
            forall|q: int| 0 <= q < i - start ==> is_digit(#[trigger] d[q]),
            v as nat == digits_value(d.subrange(0, i - start)),
            v <= max,
        decreases cs@.len() - i,
    {
        let c = cs[i];
        if !('0' <= c && c <= '9') {
            assert(!is_digit(d[i - start]));
            assert(!all_digits(d));
            assert(parse_unsigned(s@, max as nat) is None);
            return None;
        }
        let digit = (c as u32 - '0' as u32) as u64;
        assert(d[i - start] == c);
        assert(d.subrange(0, i - start + 1).drop_last() =~= d.subrange(0, i - start));
        assert(d.subrange(0, i - start + 1).last() == c);
        assert(digits_value(d.subrange(0, i - start + 1)) == digits_value(d.subrange(0, i - start)) * 10 + digit);
        if digit > max || v > (max - digit) / 10 {
            proof {
                if digit <= max {
                    assert(v * 10 + digit > max) by (nonlinear_arith)
                        requires v > (max - digit) / 10, digit <= max;
                }
                if all_digits(d) {
                    lemma_digits_value_mono(d, i - start + 1);
                }
                assert(parse_unsigned(s@, max as nat) is None);
            }
            return None;
        }
        proof {
            assert(v * 10 + digit <= max) by (nonlinear_arith)
                requires v <= (max - digit) / 10, digit <= max;
        }
        v = v * 10 + digit;
        i += 1;
    }
    assert(d.subrange(0, d.len() as int) =~= d);
    Some(v)
}

} // verus!

verus! {

/// The characters `char::is_whitespace` accepts (Unicode White_Space).
pub open spec fn is_ws(c: char) -> bool {
    c == '\t' || c == '\n' || c == '\u{b}' || c == '\u{c}' || c == '\r' || c == ' ' || c == '\u{85}'
        || c == '\u{a0}' || c == '\u{1680}' || ('\u{2000}' <= c && c <= '\u{200a}') || c == '\u{2028}'
        || c == '\u{2029}' || c == '\u{202f}' || c == '\u{205f}' || c == '\u{3000}'
}

fn is_ws_exec(c: char) -> (r: bool)
    ensures
        r == is_ws(c),
{
    c == '\t' || c == '\n' || c == '\u{b}' || c == '\u{c}' || c == '\r' || c == ' ' || c == '\u{85}'
        || c == '\u{a0}' || c == '\u{1680}' || ('\u{2000}' <= c && c <= '\u{200a}') || c == '\u{2028}'
        || c == '\u{2029}' || c == '\u{202f}' || c == '\u{205f}' || c == '\u{3000}'
}

/// `s` without leading whitespace.
pub open spec fn trim_start(s: Seq<char>) -> Seq<char>
    decreases s.len(),
{
    if s.len() > 0 && is_ws(s[0]) { trim_start(s.drop_first()) } else { s }
}

/// `s` without trailing whitespace.
pub open spec fn trim_end(s: Seq<char>) -> Seq<char>
    decreases s.len(),
{
    if s.len() > 0 && is_ws(s.last()) { trim_end(s.drop_last()) } else { s }
}

/// `s` without leading and trailing whitespace.
pub open spec fn trimmed(s: Seq<char>) -> Seq<char> {
    trim_end(trim_start(s))
}

/// Removes leading and trailing whitespace.
pub fn trim_chars(s: &Vec<char>) -> (r: Vec<char>)
    ensures
        r@ == trimmed(s@),
{
    let mut i: usize = 0;
    assert(s@.subrange(0, s@.len() as int) =~= s@);
    while i < s.len() && is_ws_exec(s[i])
        invariant
            i <= s@.len(),
            trim_start(s@) == trim_start(s@.subrange(i as int, s@.len() as int)),
        decreases s@.len() - i,
    {
        assert(s@.subrange(i as int, s@.len() as int).drop_first() =~= s@.subrange(i + 1, s@.len() as int));
        i += 1;
    }
    let mut j: usize = s.len();
    assert(trim_start(s@.subrange(i as int, s@.len() as int)) == s@.subrange(i as int, s@.len() as int));
    while j > i && is_ws_exec(s[j - 1])
        invariant
            i <= j <= s@.len(),
            trim_end(s@.subrange(i as int, s@.len() as int)) == trim_end(s@.subrange(i as int, j as int)),
        decreases j,
    {
        assert(s@.subrange(i as int, j as int).drop_last() =~= s@.subrange(i as int, j - 1));
        j -= 1;
    }
    slice_chars(s, i, j)
}

} // verus!
