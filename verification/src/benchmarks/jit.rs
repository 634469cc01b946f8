//! Which specializations have been compiled.
//!
//! A specialization is known by a key: the label of its variant and its const-generic
//! arguments.

use vstd::prelude::*;
use vstd::string::StringExecFns;

use crate::text;

verus! {

/// Texts with commas between them.
pub open spec fn joined(parts: Seq<Seq<char>>) -> Seq<char>
    decreases parts.len(),
{
    if parts.len() == 0 {
        Seq::empty()
    } else if parts.len() == 1 {
        parts[0]
    } else {
        joined(parts.drop_last()) + ","@ + parts.last()
    }
}

/// The key of a specialization.
pub open spec fn key(label: Seq<char>, generics: Seq<Seq<char>>) -> Seq<char> {
    label + ":"@ + joined(generics)
}

/// The key of a specialization.
pub fn cache_key(label: &str, generics: &Vec<String>) -> (k: String)
    ensures
        k@ == key(label@, text::texts(generics@)),
{
    let mut k: String = label.to_owned();
    k.append(":");
    let ghost head = k@;
    let ghost parts = text::texts(generics@);
    let mut i: usize = 0;
    while i < generics.len()
        invariant
            i <= generics@.len(),
            parts == text::texts(generics@),
            head == label@ + ":"@,
            k@ == head + joined(parts.take(i as int)),
        decreases generics@.len() - i,
    {
        let ghost before = parts.take(i as int);
        if i > 0 {
            k.append(",");
        }
        k.append(generics[i].as_str());
        proof {
            let after = parts.take(i + 1);
            assert(after.drop_last() =~= before);
            assert(after.last() == generics@[i as int]@);
            if i == 0 {
                assert(after[0] == generics@[0]@);
                assert(k@ =~= head + joined(after));
            } else {
                assert(k@ =~= head + joined(after));
            }
        }
        i = i + 1;
    }
    assert(parts.take(generics@.len() as int) =~= parts);
    k
}

/// A text without commas and colons.
pub open spec fn plain(s: Seq<char>) -> bool {
    forall|i: int| 0 <= i < s.len() ==> (#[trigger] s[i]) != ',' && s[i] != ':'
}

/// Where two texts end in a plain part after a separator, the texts are equal only if
/// the parts and what is before them are.
proof fn last_part_is_determined(a: Seq<char>, x: Seq<char>, b: Seq<char>, y: Seq<char>)
    requires
        plain(x),
        plain(y),
        a + ","@ + x == b + ","@ + y,
    ensures
        a == b,
        x == y,
{
    reveal_strlit(",");
    let t = a + ","@ + x;
    let u = b + ","@ + y;
    let na = a.len() as int;
    let nb = b.len() as int;
    assert(t.len() == na + 1 + x.len());
    assert(u.len() == nb + 1 + y.len());
    assert(t[na] == ',');
    assert(u[nb] == ',');
    if x.len() < y.len() {
        assert(u[na] == y[na - nb - 1]);
    } else if y.len() < x.len() {
        assert(t[nb] == x[nb - na - 1]);
    }
    assert(a =~= t.take(na));
    assert(b =~= u.take(nb));
    assert(x =~= t.skip(na + 1));
    assert(y =~= u.skip(nb + 1));
}

/// Joined plain parts give the parts back.
proof fn joined_is_one_to_one(a: Seq<Seq<char>>, b: Seq<Seq<char>>)
    requires
        a.len() > 0,
        b.len() > 0,
        forall|i: int| 0 <= i < a.len() ==> plain(#[trigger] a[i]),
        forall|i: int| 0 <= i < b.len() ==> plain(#[trigger] b[i]),
        joined(a) == joined(b),
    ensures
        a == b,
    decreases a.len(),
{
    if a.len() == 1 && b.len() == 1 {
        assert(a =~= b);
    } else if a.len() == 1 {
        comma_in_joined(b);
        let i = choose|i: int| 0 <= i < joined(b).len() && #[trigger] joined(b)[i] == ',';
        assert(a[0][i] == ',');
    } else if b.len() == 1 {
        comma_in_joined(a);
        let i = choose|i: int| 0 <= i < joined(a).len() && #[trigger] joined(a)[i] == ',';
        assert(b[0][i] == ',');
    } else {
        last_part_is_determined(joined(a.drop_last()), a.last(), joined(b.drop_last()), b.last());
        joined_is_one_to_one(a.drop_last(), b.drop_last());
        assert(a =~= a.drop_last().push(a.last()));
        assert(b =~= b.drop_last().push(b.last()));
    }
}

/// Two or more joined parts have a comma.
proof fn comma_in_joined(a: Seq<Seq<char>>)
    requires
        a.len() > 1,
    ensures
        exists|i: int| 0 <= i < joined(a).len() && #[trigger] joined(a)[i] == ',',
{
    reveal_strlit(",");
    let at = joined(a.drop_last()).len() as int;
    assert(joined(a)[at] == ',');
}

/// Keys with plain parts are equal only if the labels and the arguments are.
pub proof fn keys_are_one_to_one(
    la: Seq<char>,
    a: Seq<Seq<char>>,
    lb: Seq<char>,
    b: Seq<Seq<char>>,
)
    requires
        plain(la),
        plain(lb),
        a.len() > 0,
        b.len() > 0,
        forall|i: int| 0 <= i < a.len() ==> plain(#[trigger] a[i]),
        forall|i: int| 0 <= i < b.len() ==> plain(#[trigger] b[i]),
        key(la, a) == key(lb, b),
    ensures
        la == lb,
        a == b,
{
    reveal_strlit(":");
    let t = key(la, a);
    if la.len() < lb.len() {
        assert(t[la.len() as int] == ':');
        assert(t[la.len() as int] == lb[la.len() as int]);
    } else if lb.len() < la.len() {
        assert(key(lb, b)[lb.len() as int] == ':');
        assert(t[lb.len() as int] == la[lb.len() as int]);
    }
    assert(la =~= t.take(la.len() as int));
    assert(lb =~= t.take(lb.len() as int));
    assert(joined(a) =~= t.skip(la.len() as int + 1));
    assert(joined(b) =~= t.skip(lb.len() as int + 1));
    joined_is_one_to_one(a, b);
}

/// The keys of the specializations that have been compiled.
pub struct JitCache {
    keys: Vec<String>,
}

impl View for JitCache {
    type V = Set<Seq<char>>;

    closed spec fn view(&self) -> Set<Seq<char>> {
        text::texts(self.keys@).to_set()
    }
}

impl JitCache {
    /// No specialization has been compiled.
    pub fn new() -> (cache: JitCache)
        ensures
            cache@ == Set::<Seq<char>>::empty(),
    {
        let cache = JitCache { keys: Vec::new() };
        assert(cache@ =~= Set::empty());
        cache
    }

    /// Whether a specialization has been compiled.
    pub fn contains(&self, key: &str) -> (found: bool)
        ensures
            found == self@.contains(key@),
    {
        let mut i: usize = 0;
        while i < self.keys.len()
            invariant
                i <= self.keys@.len(),
                forall|j: int| 0 <= j < i ==> (#[trigger] text::texts(self.keys@)[j]) != key@,
            decreases self.keys@.len() - i,
        {
            if text::same_text(self.keys[i].as_str(), key) {
                assert(text::texts(self.keys@)[i as int] == key@);
                return true;
            }
            i = i + 1;
        }
        false
    }

    /// Notes that a specialization has been compiled, and says whether it had been
    /// before.
    pub fn record(&mut self, key: &str) -> (cached: bool)
        ensures
            cached == old(self)@.contains(key@),
            final(self)@ == old(self)@.insert(key@),
    {
        let cached = self.contains(key);
        if !cached {
            let ghost before = text::texts(self.keys@);
            self.keys.push(key.to_owned());
            proof {
                let after = text::texts(self.keys@);
                assert(after =~= before.push(key@));
                assert forall|t: Seq<char>|
                    after.to_set().contains(t) <==> before.to_set().insert(key@).contains(t) by {
                    if before.contains(t) {
                        let i = choose|i: int| 0 <= i < before.len() && before[i] == t;
                        assert(after[i] == t);
                    }
                    assert(after[before.len() as int] == key@);
                    if after.contains(t) {
                        let i = choose|i: int| 0 <= i < after.len() && after[i] == t;
                        if i < before.len() {
                            assert(before[i] == t);
                        }
                    }
                }
                assert(after.to_set() =~= before.to_set().insert(key@));
            }
        } else {
            assert(self@ =~= self@.insert(key@));
        }
        cached
    }
}

/// A key is the label and a colon, and then the arguments with commas between them.
pub proof fn keys_list_the_arguments(label: Seq<char>, parts: Seq<Seq<char>>, last: Seq<char>)
    ensures
        key(label, Seq::empty()) == label + ":"@,
        key(label, seq![last]) == label + ":"@ + last,
        parts.len() > 0 ==> key(label, parts.push(last)) == key(label, parts) + ","@ + last,
{
    assert(label + ":"@ + Seq::<char>::empty() =~= label + ":"@);
    if parts.len() > 0 {
        assert(parts.push(last).drop_last() =~= parts);
        assert(key(label, parts.push(last)) =~= key(label, parts) + ","@ + last);
    }
}

} // verus!
