//! File names: the stem, the extension, and the name that a rename gives.

use vstd::prelude::*;
use vstd::string::*;
use crate::idmap::IdMap;

verus! {

/// The index of the last `'.'` in `s`, or -1 where there is none.
pub open spec fn last_dot(s: Seq<char>) -> int
    decreases s.len(),
{
    if s.len() == 0 {
        -1
    } else if s.last() == '.' {
        s.len() - 1
    } else {
        last_dot(s.drop_last())
    }
}

/// Where the extension's dot stands in a file name, or -1 where the name has
/// no extension. A dot at the front (a hidden file) starts no extension, and
/// neither does the name `..`.
pub open spec fn ext_dot(s: Seq<char>) -> int {
    if s == seq!['.', '.'] {
        -1
    } else if last_dot(s) > 0 {
        last_dot(s)
    } else {
        -1
    }
}

/// The name without its final extension.
pub open spec fn stem(s: Seq<char>) -> Seq<char> {
    if ext_dot(s) >= 0 {
        s.subrange(0, ext_dot(s))
    } else {
        s
    }
}

/// The final extension with its dot, or nothing where the name has none.
pub open spec fn dotted_ext(s: Seq<char>) -> Seq<char> {
    if ext_dot(s) >= 0 {
        s.subrange(ext_dot(s), s.len() as int)
    } else {
        Seq::empty()
    }
}

/// The name that the stem rename gives `name`, where its stem is an old
/// identifier of `m`.
pub open spec fn renamed_file(name: Seq<char>, m: IdMap) -> Option<Seq<char>> {
    match m.lookup(stem(name)) {
        Some(v) => Some(v + dotted_ext(name)),
        None => None,
    }
}

/// The last dot of a name lies within it and is a dot.
pub proof fn lemma_last_dot_is_dot(s: Seq<char>)
    ensures
        -1 <= last_dot(s) < s.len(),
        last_dot(s) >= 0 ==> s[last_dot(s)] == '.',
    decreases s.len(),
{
    if s.len() > 0 && s.last() != '.' {
        lemma_last_dot_is_dot(s.drop_last());
    }
}

/// Where the extension's dot stands in `name`, if it has an extension.
pub fn ext_dot_exec(name: &str) -> (r: Option<usize>)
    ensures
        r.is_some() == (ext_dot(name@) >= 0),
        r.is_some() ==> r.unwrap() == ext_dot(name@) && r.unwrap() < name@.len(),
{
    let n = name.unicode_len();
    let mut d: Option<usize> = None;
    let mut i: usize = 0;
    proof {
        assert(name@.subrange(0, 0).len() == 0);
    }
    while i < n
        invariant
            n == name@.len(),
            i <= n,
            d.is_none() ==> last_dot(name@.subrange(0, i as int)) == -1,
            d.is_some() ==> d.unwrap() == last_dot(name@.subrange(0, i as int)) && d.unwrap() < i,
        decreases n - i,
    {
        let c = name.get_char(i);
        proof {
            assert(name@.subrange(0, i + 1).drop_last() =~= name@.subrange(0, i as int));
            assert(name@.subrange(0, i + 1).last() == c);
        }
        if c == '.' {
            d = Some(i);
        }
        i = i + 1;
    }
    proof {
        assert(name@.subrange(0, n as int) =~= name@);
    }
    if n == 2 && name.get_char(0) == '.' && name.get_char(1) == '.' {
        proof {
            assert(name@ =~= seq!['.', '.']);
        }
        return None;
    }
    proof {
        if name@ == seq!['.', '.'] {
            assert(name@[0] == '.' && name@[1] == '.');
        }
    }
    match d {
        Some(p) => if p > 0 {
            Some(p)
        } else {
            None
        },
        None => None,
    }
}

/// The stem of `name`: the name without its final extension.
pub fn stem_of(name: &str) -> (r: &str)
    ensures
        r@ == stem(name@),
{
    match ext_dot_exec(name) {
        Some(d) => name.substring_char(0, d),
        None => name,
    }
}

/// The new name of a file called `name`: the replacement of its stem followed by
/// its original extension, or `None` where the stem is no old identifier of `m`.
pub fn renamed_file_exec(name: &str, m: &IdMap) -> (r: Option<String>)
    requires
        m.wf(),
    ensures
        r.is_some() == renamed_file(name@, *m).is_some(),
        r.is_some() ==> r.unwrap()@ == renamed_file(name@, *m).unwrap(),
{
    let s = String::from_str(stem_of(name));
    match m.find(&s) {
        Some(j) => {
            let n = name.unicode_len();
            let ext = match ext_dot_exec(name) {
                Some(d) => name.substring_char(d, n),
                None => name.substring_char(n, n),
            };
            let r = m.value_at(j).clone().concat(ext);
            proof {
                assert(name@.subrange(n as int, n as int) =~= Seq::<char>::empty());
            }
            Some(r)
        },
        None => None,
    }
}

} // verus!
