use vstd::prelude::*;
use vstd::string::StrSliceExecFns;
use vstd::string::StringExecFns;

verus! {

/// The fully qualified name of a type, as its path segments (`a::b::Foo<a::b::Bar>` has the
/// segments `a`, `b` and `Foo<a::b::Bar>`). It names the partition that values of the type are
/// stored in, by its text: the segments joined by `::`. Two names are equal when their texts
/// are, so `["a::b"]` and `["a", "b"]` name the same partition.
#[derive(Clone, Debug, Eq)]
pub struct Ty {
    pub path: Vec<String>,
}

impl View for Ty {
    type V = Seq<Seq<char>>;

    open spec fn view(&self) -> Seq<Seq<char>> {
        self.path@.map_values(|p: String| p@)
    }
}

impl PartialEq for Ty {
    /// Two type names are equal when their texts are, however the text is split into segments.
    fn eq(&self, other: &Ty) -> (r: bool)
        ensures
            r == (self.text() == other.text()),
    {
        self.to_string() == other.to_string()
    }
}

impl vstd::std_specs::cmp::PartialEqSpecImpl for Ty {
    open spec fn obeys_eq_spec() -> bool {
        true
    }

    open spec fn eq_spec(&self, other: &Ty) -> bool {
        self.text() == other.text()
    }
}

/// The separator between path segments.
pub open spec fn separator() -> Seq<char> {
    seq![':', ':']
}

/// The segments joined by `::`.
pub open spec fn join_path(path: Seq<Seq<char>>) -> Seq<char>
    decreases path.len(),
{
    if path.len() == 0 {
        Seq::empty()
    } else if path.len() == 1 {
        path[0]
    } else {
        join_path(path.drop_last()) + separator() + path.last()
    }
}

/// The segments of `s[start..]`, splitting at each `::` met from left to right, where the
/// scan has reached `i` and the segment being read began at `start`.
pub open spec fn split_from(s: Seq<char>, start: int, i: int) -> Seq<Seq<char>>
    decreases s.len() - i,
{
    if i + 2 > s.len() {
        seq![s.subrange(start, s.len() as int)]
    } else if s[i] == ':' && s[i + 1] == ':' {
        seq![s.subrange(start, i)] + split_from(s, i + 2, i + 2)
    } else {
        split_from(s, start, i + 1)
    }
}

/// The segments of a type name: the text split at each `::`, from left to right.
pub open spec fn path_of(s: Seq<char>) -> Seq<Seq<char>> {
    split_from(s, 0, 0)
}

proof fn lemma_split_nonempty(s: Seq<char>, start: int, i: int)
    requires
        0 <= start <= i <= s.len(),
    ensures
        split_from(s, start, i).len() >= 1,
    decreases s.len() - i,
{
    if i + 2 <= s.len() {
        if s[i] == ':' && s[i + 1] == ':' {
            lemma_split_nonempty(s, i + 2, i + 2);
        } else {
            lemma_split_nonempty(s, start, i + 1);
        }
    }
}

proof fn lemma_join_front(a: Seq<char>, rest: Seq<Seq<char>>)
    requires
        rest.len() >= 1,
    ensures
        join_path(seq![a] + rest) == a + separator() + join_path(rest),
    decreases rest.len(),
{
    let p = seq![a] + rest;
    if rest.len() == 1 {
        assert(p.drop_last() =~= seq![a]);
        assert(p.last() == rest[0]);
        assert(join_path(seq![a]) == a);
        assert(join_path(rest) == rest[0]);
        assert(join_path(p) == join_path(p.drop_last()) + separator() + p.last());
    } else {
        assert(p.drop_last() =~= seq![a] + rest.drop_last());
        lemma_join_front(a, rest.drop_last());
        assert(p.last() == rest.last());
        assert(join_path(p) == join_path(p.drop_last()) + separator() + p.last());
        assert(join_path(rest) == join_path(rest.drop_last()) + separator() + rest.last());
        assert(a + separator() + join_path(rest.drop_last()) + separator() + rest.last() =~= a
            + separator() + (join_path(rest.drop_last()) + separator() + rest.last()));
    }
}

proof fn lemma_join_split(s: Seq<char>, start: int, i: int)
    requires
        0 <= start <= i <= s.len(),
    ensures
        join_path(split_from(s, start, i)) == s.subrange(start, s.len() as int),
    decreases s.len() - i,
{
    if i + 2 <= s.len() {
        if s[i] == ':' && s[i + 1] == ':' {
            lemma_join_split(s, i + 2, i + 2);
            lemma_split_nonempty(s, i + 2, i + 2);
            lemma_join_front(s.subrange(start, i), split_from(s, i + 2, i + 2));
            assert(s.subrange(start, i) + separator() + s.subrange(i + 2, s.len() as int)
                =~= s.subrange(start, s.len() as int));
        } else {
            lemma_join_split(s, start, i + 1);
        }
    }
}

/// Reading a type name and writing it back gives the same text: the partition that a name
/// read from text stands for is named by that text.
pub proof fn law_type_name_round_trip(s: Seq<char>)
    ensures
        join_path(path_of(s)) == s,
{
    lemma_join_split(s, 0, 0);
    assert(s.subrange(0, s.len() as int) =~= s);
}

impl Ty {
    /// The canonical text of the type name: its segments joined by `::`.
    pub open spec fn text(&self) -> Seq<char> {
        join_path(self@)
    }

    /// The canonical text of the type name: its segments joined by `::`.
    pub fn to_string(&self) -> (r: String)
        ensures
            r@ == self.text(),
    {
        let mut out = String::new();
        let mut i: usize = 0;
        while i < self.path.len()
            invariant
                0 <= i <= self.path@.len(),
                out@ == join_path(self@.subrange(0, i as int)),
            decreases self.path.len() - i,
        {
            proof {
                assert(self@.subrange(0, i + 1).drop_last() =~= self@.subrange(0, i as int));
            }
            if i > 0 {
                out.append("::");
                proof {
                    reveal_strlit("::");
                    assert("::"@ =~= separator());
                }
            } else {
                assert(out@ + self@[0] =~= self@[0]);
            }
            out.append(self.path[i].as_str());
            i = i + 1;
        }
        proof {
            assert(self@.subrange(0, i as int) =~= self@);
        }
        out
    }
}

/// Reads a type name: its text split at each `::`.
pub fn parse_ty(s: &str) -> (r: Ty)
    ensures
        r@ == path_of(s@),
{
    let n = s.unicode_len();
    let mut path: Vec<String> = Vec::new();
    let mut start: usize = 0;
    let mut i: usize = 0;
    while n >= 2 && i <= n - 2
        invariant
            n == s@.len(),
            0 <= start <= i <= n,
            path@.map_values(|p: String| p@) + split_from(s@, start as int, i as int) == path_of(
                s@,
            ),
        decreases n - i,
    {
        if s.get_char(i) == ':' && s.get_char(i + 1) == ':' {
            let piece = String::from_str(s.substring_char(start, i));
            let ghost old_path = path@;
            path.push(piece);
            proof {
                assert(path@.map_values(|p: String| p@) =~= old_path.map_values(|p: String| p@)
                    + seq![s@.subrange(start as int, i as int)]);
            }
            i = i + 2;
            start = i;
        } else {
            i = i + 1;
        }
    }
    let last = String::from_str(s.substring_char(start, n));
    let ghost old_path = path@;
    path.push(last);
    proof {
        assert(path@.map_values(|p: String| p@) =~= old_path.map_values(|p: String| p@) + seq![
            s@.subrange(start as int, n as int),
        ]);
    }
    Ty { path }
}

/// Texts joined by commas.
pub open spec fn join_commas(texts: Seq<Seq<char>>) -> Seq<char>
    decreases texts.len(),
{
    if texts.len() == 0 {
        Seq::empty()
    } else if texts.len() == 1 {
        texts[0]
    } else {
        join_commas(texts.drop_last()) + seq![','] + texts.last()
    }
}

/// The generic suffix for type arguments with the given name texts: `<A,B>`, or nothing when
/// there are none.
pub open spec fn generic_suffix(arguments: Seq<Seq<char>>) -> Seq<char> {
    if arguments.len() == 0 {
        Seq::empty()
    } else {
        seq!['<'] + join_commas(arguments) + seq!['>']
    }
}

/// The name texts of some types.
pub open spec fn texts_of(arguments: Seq<Ty>) -> Seq<Seq<char>> {
    arguments.map_values(|t: Ty| t.text())
}

/// The name of a type declared as `name` in the module whose path is `module`, applied to the given
/// type arguments: the module's segments, then the name followed by the arguments' names,
/// comma-separated in angle brackets (`a::b::Foo<a::b::Bar,c::Baz>`).
pub fn declared_ty(module: &str, name: &str, arguments: &Vec<Ty>) -> (r: Ty)
    ensures
        r@ == path_of(module@).push(name@ + generic_suffix(texts_of(arguments@))),
{
    let mut path = parse_ty(module).path;
    let ghost segments = path@.map_values(|p: String| p@);
    let mut last = String::from_str(name);
    if arguments.len() > 0 {
        last.append("<");
        proof {
            reveal_strlit("<");
        }
        let ghost start = last@;
        let mut i: usize = 0;
        while i < arguments.len()
            invariant
                0 <= i <= arguments@.len(),
                start == name@ + seq!['<'],
                last@ == start + join_commas(texts_of(arguments@).subrange(0, i as int)),
            decreases arguments.len() - i,
        {
            proof {
                assert(texts_of(arguments@).subrange(0, i + 1).drop_last() =~= texts_of(
                    arguments@,
                ).subrange(0, i as int));
            }
            if i > 0 {
                last.append(",");
                proof {
                    reveal_strlit(",");
                }
            } else {
                assert(start + texts_of(arguments@)[0] =~= start + join_commas(
                    texts_of(arguments@).subrange(0, 1),
                ));
            }
            last.append(arguments[i].to_string().as_str());
            i = i + 1;
            proof {
                assert(last@ =~= start + join_commas(texts_of(arguments@).subrange(0, i as int)));
            }
        }
        last.append(">");
        proof {
            reveal_strlit(">");
            assert(texts_of(arguments@).subrange(0, i as int) =~= texts_of(arguments@));
            assert(last@ =~= name@ + generic_suffix(texts_of(arguments@)));
        }
    } else {
        assert(last@ =~= name@ + generic_suffix(texts_of(arguments@)));
    }
    let ghost last_view = last@;
    path.push(last);
    proof {
        assert(path@.map_values(|p: String| p@) =~= segments.push(last_view));
    }
    Ty { path }
}

/// A type whose values the store can hold, under the partition its type name gives.
pub trait Vanth {
    /// The segments of the type's name: one fixed value per type.
    closed spec fn name_segments() -> Seq<Seq<char>> {
        vstd::pervasive::arbitrary()
    }

    /// The name of the type; the same on every call.
    fn ty() -> (r: Ty)
        ensures
            r@ == Self::name_segments(),
    ;
}

} // verus!
