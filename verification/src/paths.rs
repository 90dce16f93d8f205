//! File-system paths as text, with `/` as the separator: joining, the last
//! component, and the split of a file name into stem and extension, as
//! `std::path` defines them.
use vstd::prelude::*;
use crate::text::{
    chars_of, last_index_of, last_index_of_char, lemma_last_index_of_bound, lemma_split_nonempty,
    same, slice, split_char, split_on, string_of, views,
};

verus! {

/// `base.join(part)`: an absolute `part` replaces `base`; otherwise a
/// separator is put between them unless `base` is empty or already ends in one.
pub open spec fn path_join(base: Seq<char>, part: Seq<char>) -> Seq<char> {
    if part.len() > 0 && part[0] == '/' {
        part
    } else if base.len() == 0 || base.last() == '/' {
        base + part
    } else {
        base + seq!['/'] + part
    }
}

/// The components of a path that name something: what lies between
/// separators, without empty pieces and `.`.
pub open spec fn named_components(parts: Seq<Seq<char>>) -> Seq<Seq<char>>
    decreases parts.len(),
{
    if parts.len() == 0 {
        Seq::empty()
    } else {
        let init = named_components(parts.drop_last());
        let c = parts.last();
        if c.len() == 0 || c == seq!['.'] {
            init
        } else {
            init.push(c)
        }
    }
}

/// `Path::file_name`: the last component, unless there is none or it is `..`.
pub open spec fn file_name(path: Seq<char>) -> Option<Seq<char>> {
    let comps = named_components(split_char(path, '/'));
    if comps.len() == 0 || comps.last() == seq!['.', '.'] {
        None
    } else {
        Some(comps.last())
    }
}

/// A file name split at its last `.` into stem and extension; a name with no
/// `.`, or whose only `.` leads it, is all stem.
pub open spec fn split_ext(name: Seq<char>) -> (Seq<char>, Option<Seq<char>>) {
    match last_index_of(name, '.') {
        Some(i) => if i > 0 {
            (name.take(i), Some(name.skip(i + 1)))
        } else {
            (name, None)
        },
        None => (name, None),
    }
}

/// `Path::file_stem`.
pub open spec fn file_stem(path: Seq<char>) -> Option<Seq<char>> {
    match file_name(path) {
        Some(f) => Some(split_ext(f).0),
        None => None,
    }
}

/// `Path::extension`.
pub open spec fn extension(path: Seq<char>) -> Option<Seq<char>> {
    match file_name(path) {
        Some(f) => split_ext(f).1,
        None => None,
    }
}


/// A single path component that names something: not empty, no separator,
/// and neither `.` nor `..`.
pub open spec fn plain_name(s: Seq<char>) -> bool {
    &&& s.len() > 0
    &&& forall|i: int| 0 <= i < s.len() ==> #[trigger] s[i] != '/'
    &&& s != seq!['.']
    &&& s != seq!['.', '.']
}

/// Splitting at a separator between two texts splits each of them.
pub proof fn lemma_split_around(a: Seq<char>, b: Seq<char>, c: char)
    ensures
        split_char(a + seq![c] + b, c) == split_char(a, c) + split_char(b, c),
    decreases b.len(),
{
    let t = a + seq![c] + b;
    if b.len() == 0 {
        assert(t =~= a.push(c));
        assert(t.drop_last() =~= a);
        assert(split_char(b, c) =~= seq![Seq::<char>::empty()]);
        assert(split_char(a, c).push(Seq::<char>::empty()) =~= split_char(a, c) + split_char(b, c));
    } else {
        let b1 = b.drop_last();
        assert(t.drop_last() =~= a + seq![c] + b1);
        assert(t.last() == b.last());
        lemma_split_around(a, b1, c);
        lemma_split_nonempty(b1, c);
        let x = split_char(a, c);
        let y = split_char(b1, c);
        if b.last() == c {
            assert((x + y).push(Seq::<char>::empty()) =~= x + y.push(Seq::<char>::empty()));
        } else {
            assert((x + y).update((x + y).len() - 1, (x + y).last().push(b.last())) =~= x + y.update(
                y.len() - 1,
                y.last().push(b.last()),
            ));
        }
    }
}

/// A text without the separator is one piece.
pub proof fn lemma_split_whole(s: Seq<char>, c: char)
    requires
        forall|i: int| 0 <= i < s.len() ==> #[trigger] s[i] != c,
    ensures
        split_char(s, c) == seq![s],
    decreases s.len(),
{
    if s.len() > 0 {
        let t = s.drop_last();
        assert forall|i: int| 0 <= i < t.len() implies #[trigger] t[i] != c by {
            assert(t[i] == s[i]);
        }
        lemma_split_whole(t, c);
        assert(s.last() == s[s.len() - 1]);
        assert(t.push(s.last()) =~= s);
        assert(seq![t].update(0, t.push(s.last())) =~= seq![s]);
    } else {
        assert(s =~= Seq::<char>::empty());
    }
}

/// The named components of two joined component lists are those of each, in
/// order.
pub proof fn lemma_named_concat(x: Seq<Seq<char>>, y: Seq<Seq<char>>)
    ensures
        named_components(x + y) == named_components(x) + named_components(y),
    decreases y.len(),
{
    if y.len() == 0 {
        assert(x + y =~= x);
        assert(named_components(x) + named_components(y) =~= named_components(x));
    } else {
        assert((x + y).drop_last() =~= x + y.drop_last());
        assert((x + y).last() == y.last());
        lemma_named_concat(x, y.drop_last());
        let c = y.last();
        if !(c.len() == 0 || c == seq!['.']) {
            assert((named_components(x) + named_components(y.drop_last())).push(c)
                =~= named_components(x) + named_components(y.drop_last()).push(c));
        }
    }
}

/// A plain name joined onto any base is the file name of the result.
pub proof fn lemma_file_name_of_join(base: Seq<char>, name: Seq<char>)
    requires
        plain_name(name),
    ensures
        file_name(path_join(base, name)) == Some(name),
{
    lemma_split_whole(name, '/');
    let one = seq![name];
    assert(one.drop_last() =~= Seq::<Seq<char>>::empty());
    assert(named_components(one.drop_last()) == Seq::<Seq<char>>::empty());
    assert(one.last() == name);
    assert(named_components(one) =~= seq![name]);
    if base.len() == 0 {
        assert(path_join(base, name) =~= name);
    } else {
        let b = if base.last() == '/' {
            base.drop_last()
        } else {
            base
        };
        assert(path_join(base, name) =~= b + seq!['/'] + name);
        lemma_split_around(b, name, '/');
        lemma_named_concat(split_char(b, '/'), one);
    }
}

/// A plain file name `<stem>.<ext>` joined onto any base has that stem and
/// extension, split at its last `.`, when the stem is not empty and the
/// extension holds no `.`.
pub proof fn lemma_stem_of_join(base: Seq<char>, stem: Seq<char>, ext: Seq<char>)
    requires
        plain_name(stem + seq!['.'] + ext),
        stem.len() > 0,
        forall|k: int| 0 <= k < ext.len() ==> #[trigger] ext[k] != '.',
    ensures
        file_stem(path_join(base, stem + seq!['.'] + ext)) == Some(stem),
        extension(path_join(base, stem + seq!['.'] + ext)) == Some(ext),
{
    let name = stem + seq!['.'] + ext;
    lemma_file_name_of_join(base, name);
    let n = stem.len() as int;
    assert(name[n] == '.');
    assert forall|k: int| n + 1 <= k < name.len() implies #[trigger] name[k] != '.' by {
        assert(name[k] == ext[k - n - 1]);
    }
    crate::text::lemma_last_index_of(name, '.', n + 1);
    assert(name.take(n) =~= stem);
    assert(name.skip(n + 1) =~= ext);
}

/// Asking `is_file` about `path` may have answered `answer`.
pub open spec fn probed<X: Fn(&String) -> bool>(is_file: X, path: Seq<char>, answer: bool) -> bool {
    exists|s: String| s@ == path && call_ensures(is_file, (&s,), answer)
}

/// The joined path of `base` and `part`.
pub fn join_path(base: &str, part: &str) -> (r: String)
    ensures
        r@ == path_join(base@, part@),
{
    let b = chars_of(base);
    let p = chars_of(part);
    let mut v: Vec<char>;
    if p.len() > 0 && p[0] == '/' {
        v = p;
    } else if b.len() == 0 || b[b.len() - 1] == '/' {
        v = b;
        crate::text::extend(&mut v, &p);
    } else {
        v = b;
        v.push('/');
        crate::text::extend(&mut v, &p);
    }
    string_of(&v)
}

fn file_name_chars(path: &Vec<char>) -> (r: Option<Vec<char>>)
    ensures
        match r {
            Some(v) => file_name(path@) == Some(v@),
            None => file_name(path@) is None,
        },
{
    let parts = split_on(path, '/');
    let ghost pv = views(parts@);
    let dot = chars_of(".");
    let dotdot = chars_of("..");
    proof {
        reveal_strlit(".");
        reveal_strlit("..");
        assert(dot@ =~= seq!['.']);
        assert(dotdot@ =~= seq!['.', '.']);
    }
    let mut comps: Vec<Vec<char>> = Vec::new();
    for i in 0..parts.len()
        invariant
            pv == views(parts@),
            pv.len() == parts.len(),
            dot@ == seq!['.'],
            views(comps@) == named_components(pv.take(i as int)),
    {
        assert(pv.take(i + 1).drop_last() =~= pv.take(i as int));
        assert(pv.take(i + 1).last() == parts@[i as int]@);
        let c = &parts[i];
        if !(c.len() == 0 || same(c, &dot)) {
            let ghost before = views(comps@);
            comps.push(c.clone());
            assert(views(comps@) =~= before.push(c@));
        }
    }
    assert(pv.take(parts.len() as int) =~= pv);
    if comps.len() == 0 {
        return None;
    }
    let last = comps[comps.len() - 1].clone();
    assert(views(comps@).last() == last@);
    if same(&last, &dotdot) {
        None
    } else {
        Some(last)
    }
}

/// Stem and extension of a file name.
fn split_ext_chars(name: &Vec<char>) -> (r: (Vec<char>, Option<Vec<char>>))
    ensures
        r.0@ == split_ext(name@).0,
        match r.1 {
            Some(e) => split_ext(name@).1 == Some(e@),
            None => split_ext(name@).1 is None,
        },
{
    match last_index_of_char(name, '.') {
        Some(i) => {
            proof {
                lemma_last_index_of_bound(name@, '.');
            }
            if i > 0 {
                let stem = slice(name, 0, i);
                let ext = slice(name, i + 1, name.len());
                assert(stem@ =~= name@.take(i as int));
                assert(ext@ =~= name@.skip(i + 1));
                (stem, Some(ext))
            } else {
                (name.clone(), None)
            }
        },
        None => (name.clone(), None),
    }
}

/// `Path::file_stem` of a path.
pub fn path_stem(path: &str) -> (r: Option<String>)
    ensures
        match r {
            Some(s) => file_stem(path@) == Some(s@),
            None => file_stem(path@) is None,
        },
{
    match file_name_chars(&chars_of(path)) {
        Some(f) => {
            let (stem, _ext) = split_ext_chars(&f);
            Some(string_of(&stem))
        },
        None => None,
    }
}

/// `Path::extension` of a path.
pub fn path_extension(path: &str) -> (r: Option<String>)
    ensures
        match r {
            Some(s) => extension(path@) == Some(s@),
            None => extension(path@) is None,
        },
{
    match file_name_chars(&chars_of(path)) {
        Some(f) => {
            let (_stem, ext) = split_ext_chars(&f);
            match ext {
                Some(e) => Some(string_of(&e)),
                None => None,
            }
        },
        None => None,
    }
}

} // verus!
