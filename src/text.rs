use vstd::prelude::*;
use vstd::string::*;

verus! {

/// Whether `s` starts with the escape character `~` followed by `c`.
pub open spec fn has_sigil(s: Seq<char>, c: char) -> bool {
    s.len() >= 2 && s[0] == '~' && s[1] == c
}

/// What follows the two sigil characters.
pub open spec fn payload(s: Seq<char>) -> Seq<char> {
    s.subrange(2, s.len() as int)
}

/// The two characters `~` and `c`.
pub open spec fn sigil(c: char) -> Seq<char> {
    seq!['~', c]
}

pub open spec fn contains_char(s: Seq<char>, c: char) -> bool {
    exists|i: int| 0 <= i < s.len() && s[i] == c
}

/// The position of the last `c` in `s`.
pub open spec fn last_index(s: Seq<char>, c: char) -> Option<int>
    decreases s.len(),
{
    if s.len() == 0 {
        None
    } else if s.last() == c {
        Some(s.len() - 1)
    } else {
        last_index(s.drop_last(), c)
    }
}

/// `s` cut at every `c`: one more piece than there are `c`s.
pub open spec fn split_on(s: Seq<char>, c: char) -> Seq<Seq<char>>
    decreases s.len(),
{
    if s.len() == 0 {
        seq![Seq::empty()]
    } else {
        let r = split_on(s.drop_last(), c);
        if s.last() == c {
            r.push(Seq::empty())
        } else {
            r.update(r.len() - 1, r.last().push(s.last()))
        }
    }
}

pub proof fn lemma_split_on_nonempty(s: Seq<char>, c: char)
    ensures
        split_on(s, c).len() >= 1,
    decreases s.len(),
{
    if s.len() > 0 {
        lemma_split_on_nonempty(s.drop_last(), c);
    }
}

pub proof fn lemma_last_index_bounds(s: Seq<char>, c: char)
    ensures
        last_index(s, c) matches Some(k) ==> 0 <= k < s.len() && s[k] == c
            && !contains_char(s.subrange(k + 1, s.len() as int), c),
        last_index(s, c) is None ==> !contains_char(s, c),
    decreases s.len(),
{
    if s.len() > 0 {
        lemma_last_index_bounds(s.drop_last(), c);
        if s.last() != c {
            if let Some(k) = last_index(s.drop_last(), c) {
                let t = s.subrange(k + 1, s.len() as int);
                assert(t.drop_last() =~= s.drop_last().subrange(k + 1, s.len() - 1));
                assert forall|i: int| 0 <= i < t.len() implies t[i] != c by {
                    if i < t.len() - 1 {
                        assert(t[i] == t.drop_last()[i]);
                    }
                }
            } else {
                assert forall|i: int| 0 <= i < s.len() implies s[i] != c by {
                    if i < s.len() - 1 {
                        assert(s[i] == s.drop_last()[i]);
                    }
                }
            }
        }
    }
}

/// Relies on `str::chars`, collected into a vector: the characters of `s` in
/// order.
#[verifier::external_body]
pub fn chars_of(s: &str) -> (r: Vec<char>)
    ensures
        r@ == s@,
{
    s.chars().collect()
}

/// Whether `s` starts with `~` followed by `c`.
pub fn starts_with_sigil(s: &str, c: char) -> (r: bool)
    ensures
        r == has_sigil(s@, c),
{
    let n = s.unicode_len();
    n >= 2 && s.get_char(0) == '~' && s.get_char(1) == c
}

/// The text after the two sigil characters of `s`.
pub fn payload_of(s: &str) -> (r: String)
    requires
        s@.len() >= 2,
    ensures
        r@ == payload(s@),
{
    let n = s.unicode_len();
    s.substring_char(2, n).to_owned()
}

/// The text `~c`.
pub fn sigil_text(c: char) -> (r: String)
    ensures
        r@ == sigil(c),
{
    let mut r = String::from_str("~");
    proof {
        reveal_strlit("~");
    }
    let cs = [c];
    let t: String = chars_to_string(&cs);
    r.append(t.as_str());
    r
}

/// Relies on collecting characters into a `String`: the characters of `cs`
/// in order.
#[verifier::external_body]
pub fn chars_to_string(cs: &[char]) -> (r: String)
    ensures
        r@ == cs@,
{
    cs.iter().collect()
}

/// Whether `a` and `b` hold the same characters.
pub fn same_text(a: &str, b: &str) -> (r: bool)
    ensures
        r == (a@ == b@),
{
    let x = chars_of(a);
    let y = chars_of(b);
    if x.len() != y.len() {
        return false;
    }
    let mut i: usize = 0;
    while i < x.len()
        invariant
            x@ == a@,
            y@ == b@,
            x@.len() == y@.len(),
            i <= x@.len(),
            forall|j: int| 0 <= j < i ==> x@[j] == y@[j],
        decreases x@.len() - i,
    {
        if x[i] != y[i] {
            return false;
        }
        i = i + 1;
    }
    assert(x@ =~= y@);
    true
}

/// Whether `c` occurs in `s`.
pub fn has_char(s: &Vec<char>, c: char) -> (r: bool)
    ensures
        r == contains_char(s@, c),
{
    let mut i: usize = 0;
    while i < s.len()
        invariant
            0 <= i <= s@.len(),
            forall|j: int| 0 <= j < i ==> s@[j] != c,
        decreases s@.len() - i,
    {
        if s[i] == c {
            return true;
        }
        i = i + 1;
    }
    false
}

/// The position of the last `c` in `s`.
pub fn find_last(s: &Vec<char>, c: char) -> (r: Option<usize>)
    ensures
        r matches Some(k) ==> last_index(s@, c) == Some(k as int),
        r is None ==> last_index(s@, c) is None,
{
    let mut i: usize = s.len();
    assert(s@.subrange(0, i as int) =~= s@);
    while i > 0
        invariant
            i <= s@.len(),
            last_index(s@, c) == last_index(s@.subrange(0, i as int), c),
        decreases i,
    {
        let ghost t = s@.subrange(0, i as int);
        assert(t.drop_last() =~= s@.subrange(0, i - 1));
        if s[i - 1] == c {
            return Some(i - 1);
        }
        i = i - 1;
    }
    assert(s@.subrange(0, 0) =~= Seq::<char>::empty());
    None
}

/// `s` cut at every `c`.
pub fn split_text(s: &str, c: char) -> (r: Vec<String>)
    ensures
        r@.map_values(|p: String| p@) == split_on(s@, c),
{
    let cs = chars_of(s);
    let mut parts: Vec<String> = Vec::new();
    let mut start: usize = 0;
    let mut i: usize = 0;
    assert(parts@.map_values(|p: String| p@) =~= Seq::<Seq<char>>::empty());
    assert(s@.subrange(0, 0) =~= Seq::<char>::empty());
    while i < cs.len()
        invariant
            cs@ == s@,
            start <= i <= cs@.len(),
            parts@.map_values(|p: String| p@).push(s@.subrange(start as int, i as int))
                == split_on(s@.subrange(0, i as int), c),
        decreases cs@.len() - i,
    {
        let ghost before = parts@.map_values(|p: String| p@);
        let ghost prefix = s@.subrange(0, i + 1);
        assert(prefix.drop_last() =~= s@.subrange(0, i as int));
        assert(prefix.last() == cs@[i as int]);
        let ghost r = before.push(s@.subrange(start as int, i as int));
        assert(split_on(prefix, c) == if cs@[i as int] == c {
            r.push(Seq::empty())
        } else {
            r.update(r.len() - 1, r.last().push(cs@[i as int]))
        });
        if cs[i] == c {
            let piece = s.substring_char(start, i).to_owned();
            parts.push(piece);
            assert(parts@.map_values(|p: String| p@) =~= before.push(s@.subrange(start as int, i as int)));
            assert(s@.subrange(i + 1, i + 1) =~= Seq::<char>::empty());
            start = i + 1;
        } else {
            assert(s@.subrange(start as int, i + 1) =~= s@.subrange(start as int, i as int).push(cs@[i as int]));
            assert(r.update(r.len() - 1, r.last().push(cs@[i as int])) =~= before.push(s@.subrange(start as int, i + 1)));
        }
        i = i + 1;
    }
    let last = s.substring_char(start, cs.len()).to_owned();
    let ghost before = parts@.map_values(|p: String| p@);
    parts.push(last);
    assert(parts@.map_values(|p: String| p@) =~= before.push(s@.subrange(start as int, cs@.len() as int)));
    assert(s@.subrange(0, cs@.len() as int) =~= s@);
    parts
}

} // verus!
