//! A small XML reader and writer covering the subset of XML that the wire
//! schema uses: tags with attributes (skipped on read), character data with
//! the five named entities, and self-closing elements. Comments, CDATA and
//! numeric character references are rejected. All functions work on the
//! UTF-8 bytes of the document; positions are absolute byte indices.

use vstd::prelude::*;

verus! {

/// XML whitespace.
pub open spec fn is_ws(b: u8) -> bool {
    b == 32 || b == 9 || b == 10 || b == 13
}

/// First position at or after `i` that does not hold whitespace (or the end).
pub open spec fn spec_skip_ws(s: Seq<u8>, i: int) -> int
    decreases s.len() - i,
{
    if i < 0 || i >= s.len() {
        i
    } else if is_ws(s[i]) {
        spec_skip_ws(s, i + 1)
    } else {
        i
    }
}

pub(crate) fn skip_ws(v: &Vec<u8>, i: usize) -> (r: usize)
    requires
        i <= v@.len(),
    ensures
        r == spec_skip_ws(v@, i as int),
        i <= r <= v@.len(),
    decreases v@.len() - i,
{
    if i < v.len() {
        let b = v[i];
        if b == 32 || b == 9 || b == 10 || b == 13 {
            return skip_ws(v, i + 1);
        }
    }
    i
}

/// Bytes allowed in an element name.
pub open spec fn is_name_byte(b: u8) -> bool {
    ||| 48 <= b <= 57
    ||| 65 <= b <= 90
    ||| 97 <= b <= 122
    ||| b == 95
    ||| b == 45
    ||| b == 46
    ||| b == 58
}

/// First position at or after `i` that does not hold a name byte (or the end).
pub open spec fn spec_name_end(s: Seq<u8>, i: int) -> int
    decreases s.len() - i,
{
    if i < 0 || i >= s.len() {
        i
    } else if is_name_byte(s[i]) {
        spec_name_end(s, i + 1)
    } else {
        i
    }
}

fn name_end(v: &Vec<u8>, i: usize) -> (r: usize)
    requires
        i <= v@.len(),
    ensures
        r == spec_name_end(v@, i as int),
        i <= r <= v@.len(),
    decreases v@.len() - i,
{
    if i < v.len() {
        let b = v[i];
        if (48 <= b && b <= 57) || (65 <= b && b <= 90) || (97 <= b && b <= 122) || b == 95 || b
            == 45 || b == 46 || b == 58 {
            return name_end(v, i + 1);
        }
    }
    i
}

/// First position at or after `i` holding `b`, or -1 if there is none.
pub open spec fn spec_find_from(s: Seq<u8>, i: int, b: u8) -> int
    decreases s.len() - i,
{
    if i < 0 || i >= s.len() {
        -1
    } else if s[i] == b {
        i
    } else {
        spec_find_from(s, i + 1, b)
    }
}

pub(crate) fn find_from(v: &Vec<u8>, i: usize, b: u8) -> (r: Option<usize>)
    requires
        i <= v@.len(),
    ensures
        r matches Some(j) ==> spec_find_from(v@, i as int, b) == j && i <= j < v@.len(),
        r is None ==> spec_find_from(v@, i as int, b) == -1,
    decreases v@.len() - i,
{
    if i < v.len() {
        if v[i] == b {
            return Some(i);
        }
        return find_from(v, i + 1, b);
    }
    None
}

/// An opening tag read at `i`: `<Name attrs…>` or `<Name attrs…/>`. Yields
/// the name, the position after `>`, and whether the element is self-closing.
/// Attributes are skipped: everything up to the first `>` belongs to the tag.
pub open spec fn spec_open_tag(s: Seq<u8>, i: int) -> Option<(Seq<u8>, int, bool)> {
    if !(0 <= i && i < s.len() && s[i] == 60) {
        None
    } else {
        let j = spec_name_end(s, i + 1);
        if j == i + 1 {
            None
        } else {
            let k = spec_find_from(s, j, 62);
            if k < 0 {
                None
            } else {
                Some((s.subrange(i + 1, j), k + 1, k > j && s[k - 1] == 47))
            }
        }
    }
}

pub(crate) fn open_tag(v: &Vec<u8>, i: usize) -> (r: Option<(Vec<u8>, usize, bool)>)
    requires
        i <= v@.len(),
    ensures
        r is None ==> spec_open_tag(v@, i as int) is None,
        r matches Some((name, j, e)) ==> spec_open_tag(v@, i as int) matches Some(sp) && name@
            == sp.0 && j == sp.1 && e == sp.2 && i < j <= v@.len(),
{
    if i >= v.len() || v[i] != 60 {
        return None;
    }
    let j = name_end(v, i + 1);
    if j == i + 1 {
        return None;
    }
    match find_from(v, j, 62) {
        None => None,
        Some(k) => {
            let name = vstd::slice::slice_to_vec(&v.as_slice()[i + 1..j]);
            let empty = k > j && v[k - 1] == 47;
            Some((name, k + 1, empty))
        },
    }
}

/// A closing tag read at `i`: `</Name >` with optional whitespace before the
/// `>`. Yields the name and the position after `>`.
pub open spec fn spec_close_tag(s: Seq<u8>, i: int) -> Option<(Seq<u8>, int)> {
    if !(0 <= i && i + 1 < s.len() && s[i] == 60 && s[i + 1] == 47) {
        None
    } else {
        let j = spec_name_end(s, i + 2);
        if j == i + 2 {
            None
        } else {
            let k = spec_skip_ws(s, j);
            if k < s.len() && s[k] == 62 {
                Some((s.subrange(i + 2, j), k + 1))
            } else {
                None
            }
        }
    }
}

pub(crate) fn close_tag(v: &Vec<u8>, i: usize) -> (r: Option<(Vec<u8>, usize)>)
    requires
        i <= v@.len(),
    ensures
        r is None ==> spec_close_tag(v@, i as int) is None,
        r matches Some((name, j)) ==> spec_close_tag(v@, i as int) matches Some(sp) && name@
            == sp.0 && j == sp.1 && i < j <= v@.len(),
{
    if i >= v.len() || i + 1 >= v.len() || v[i] != 60 || v[i + 1] != 47 {
        return None;
    }
    let j = name_end(v, i + 2);
    if j == i + 2 {
        return None;
    }
    let k = skip_ws(v, j);
    if k < v.len() && v[k] == 62 {
        let name = vstd::slice::slice_to_vec(&v.as_slice()[i + 2..j]);
        Some((name, k + 1))
    } else {
        None
    }
}

/// End of the character-data run starting at `i`: the first `<` at or after
/// `i`, or the end of the document.
pub open spec fn spec_text_end(s: Seq<u8>, i: int) -> int {
    let t = spec_find_from(s, i, 60);
    if t < 0 {
        s.len() as int
    } else {
        t
    }
}

pub(crate) fn text_end(v: &Vec<u8>, i: usize) -> (r: usize)
    requires
        i <= v@.len(),
    ensures
        r == spec_text_end(v@, i as int),
        i <= r <= v@.len(),
    decreases v@.len() - i,
{
    match find_from(v, i, 60) {
        Some(t) => t,
        None => v.len(),
    }
}

/// The named entity starting at position 1 of `s` (after a `&`): the byte it
/// stands for and the total length of the escape, or `None` for any other
/// use of `&`. The entities are `&amp;`, `&lt;`, `&gt;`, `&quot;`, `&apos;`.
pub open spec fn spec_entity(s: Seq<u8>) -> Option<(u8, int)> {
    if s.len() >= 5 && s[1] == 97 && s[2] == 109 && s[3] == 112 && s[4] == 59 {
        Some((38u8, 5))
    } else if s.len() >= 4 && s[1] == 108 && s[2] == 116 && s[3] == 59 {
        Some((60u8, 4))
    } else if s.len() >= 4 && s[1] == 103 && s[2] == 116 && s[3] == 59 {
        Some((62u8, 4))
    } else if s.len() >= 6 && s[1] == 113 && s[2] == 117 && s[3] == 111 && s[4] == 116 && s[5]
        == 59 {
        Some((34u8, 6))
    } else if s.len() >= 6 && s[1] == 97 && s[2] == 112 && s[3] == 111 && s[4] == 115 && s[5]
        == 59 {
        Some((39u8, 6))
    } else {
        None
    }
}

/// Unescaping of character data: the five named entities stand for their
/// characters; any other use of `&` is rejected; every other byte stands for
/// itself.
pub open spec fn spec_unescape(s: Seq<u8>) -> Option<Seq<u8>>
    decreases s.len(),
{
    if s.len() == 0 {
        Some(Seq::empty())
    } else if s[0] == 38 {
        match spec_entity(s) {
            Some((rep, skip)) => match spec_unescape(s.skip(skip)) {
                Some(t) => Some(seq![rep] + t),
                None => None,
            },
            None => None,
        }
    } else {
        match spec_unescape(s.skip(1)) {
            Some(t) => Some(seq![s[0]] + t),
            None => None,
        }
    }
}

fn entity_at(v: &Vec<u8>, i: usize, end: usize) -> (r: Option<(u8, usize)>)
    requires
        i < end <= v@.len(),
    ensures
        r is None ==> spec_entity(v@.subrange(i as int, end as int)) is None,
        r matches Some((rep, skip)) ==> spec_entity(v@.subrange(i as int, end as int)) == Some(
            (rep, skip as int),
        ) && i + skip <= end,
{
    let ghost s = v@.subrange(i as int, end as int);
    proof {
        assert forall|k: int| 0 <= k < s.len() implies s[k] == v@[i + k] by {}
    }
    if end - i >= 5 && v[i + 1] == 97 && v[i + 2] == 109 && v[i + 3] == 112 && v[i + 4] == 59 {
        Some((38, 5))
    } else if end - i >= 4 && v[i + 1] == 108 && v[i + 2] == 116 && v[i + 3] == 59 {
        Some((60, 4))
    } else if end - i >= 4 && v[i + 1] == 103 && v[i + 2] == 116 && v[i + 3] == 59 {
        Some((62, 4))
    } else if end - i >= 6 && v[i + 1] == 113 && v[i + 2] == 117 && v[i + 3] == 111 && v[i + 4]
        == 116 && v[i + 5] == 59 {
        Some((34, 6))
    } else if end - i >= 6 && v[i + 1] == 97 && v[i + 2] == 112 && v[i + 3] == 111 && v[i + 4]
        == 115 && v[i + 5] == 59 {
        Some((39, 6))
    } else {
        None
    }
}

pub(crate) fn unescape_region(v: &Vec<u8>, i: usize, end: usize) -> (r: Option<Vec<u8>>)
    requires
        i <= end <= v@.len(),
    ensures
        r is None <==> spec_unescape(v@.subrange(i as int, end as int)) is None,
        r matches Some(out) ==> spec_unescape(v@.subrange(i as int, end as int)) matches Some(t)
            && out@ == t,
    decreases end - i,
{
    let ghost s = v@.subrange(i as int, end as int);
    if i == end {
        proof {
            assert(s =~= Seq::<u8>::empty());
        }
        return Some(Vec::new());
    }
    proof {
        assert(s[0] == v@[i as int]);
        assert(s.skip(1) =~= v@.subrange(i + 1, end as int));
    }
    let b = v[i];
    if b == 38 {
        let (rep, skip): (u8, usize) = match entity_at(v, i, end) {
            Some(e) => e,
            None => {
                return None;
            },
        };
        proof {
            assert(s.skip(skip as int) =~= v@.subrange(i + skip, end as int));
        }
        match unescape_region(v, i + skip, end) {
            None => None,
            Some(mut out) => {
                out.insert(0, rep);
                proof {
                    let t = spec_unescape(s.skip(skip as int))->Some_0;
                    assert(out@ =~= seq![rep] + t);
                }
                Some(out)
            },
        }
    } else {
        match unescape_region(v, i + 1, end) {
            None => None,
            Some(mut out) => {
                out.insert(0, b);
                proof {
                    let t = spec_unescape(s.skip(1))->Some_0;
                    assert(out@ =~= seq![s[0]] + t);
                }
                Some(out)
            },
        }
    }
}

/// Escaping of character data written into a document. With `full`, the
/// quote characters are escaped as well; without it only `&`, `<` and `>`.
pub open spec fn escape_byte_xml(b: u8, full: bool) -> Seq<u8> {
    if b == 38 {
        seq![38u8, 97u8, 109u8, 112u8, 59u8]  // &amp;
    } else if b == 60 {
        seq![38u8, 108u8, 116u8, 59u8]  // &lt;
    } else if b == 62 {
        seq![38u8, 103u8, 116u8, 59u8]  // &gt;
    } else if full && b == 34 {
        seq![38u8, 113u8, 117u8, 111u8, 116u8, 59u8]  // &quot;
    } else if full && b == 39 {
        seq![38u8, 97u8, 112u8, 111u8, 115u8, 59u8]  // &apos;
    } else {
        seq![b]
    }
}

/// Appends one escaped byte to `out`.
fn escape_byte_into(out: &mut Vec<u8>, b: u8, full: bool)
    ensures
        final(out)@ == old(out)@ + escape_byte_xml(b, full),
{
    let ghost pre = out@;
    if b == 38 {
        out.push(38);
        out.push(97);
        out.push(109);
        out.push(112);
        out.push(59);
    } else if b == 60 {
        out.push(38);
        out.push(108);
        out.push(116);
        out.push(59);
    } else if b == 62 {
        out.push(38);
        out.push(103);
        out.push(116);
        out.push(59);
    } else if full && b == 34 {
        out.push(38);
        out.push(113);
        out.push(117);
        out.push(111);
        out.push(116);
        out.push(59);
    } else if full && b == 39 {
        out.push(38);
        out.push(97);
        out.push(112);
        out.push(111);
        out.push(115);
        out.push(59);
    } else {
        out.push(b);
    }
    proof {
        assert(out@ =~= pre + escape_byte_xml(b, full));
    }
}

/// The escaped form of `s`.
pub open spec fn spec_xml_escape(s: Seq<u8>, full: bool) -> Seq<u8>
    decreases s.len(),
{
    if s.len() == 0 {
        Seq::empty()
    } else {
        escape_byte_xml(s[0], full) + spec_xml_escape(s.skip(1), full)
    }
}

/// Escaping distributes over appending one byte.
pub proof fn lemma_escape_push(s: Seq<u8>, b: u8, full: bool)
    ensures
        spec_xml_escape(s.push(b), full) == spec_xml_escape(s, full) + escape_byte_xml(b, full),
    decreases s.len(),
{
    if s.len() == 0 {
        assert(s.push(b).len() == 1);
        assert(s.push(b)[0] == b);
        assert(s.push(b).skip(1) =~= Seq::<u8>::empty());
        assert(spec_xml_escape(s.push(b).skip(1), full) == Seq::<u8>::empty());
        assert(spec_xml_escape(s.push(b), full) == escape_byte_xml(b, full) + Seq::<u8>::empty());
        assert(escape_byte_xml(b, full) + Seq::<u8>::empty() =~= escape_byte_xml(b, full));
        assert(spec_xml_escape(s, full) == Seq::<u8>::empty());
        assert(Seq::<u8>::empty() + escape_byte_xml(b, full) =~= escape_byte_xml(b, full));
    } else {
        assert(s.push(b).skip(1) =~= s.skip(1).push(b));
        assert(s.push(b)[0] == s[0]);
        lemma_escape_push(s.skip(1), b, full);
        assert(escape_byte_xml(s[0], full) + (spec_xml_escape(s.skip(1), full) + escape_byte_xml(
            b,
            full,
        )) =~= (escape_byte_xml(s[0], full) + spec_xml_escape(s.skip(1), full)) + escape_byte_xml(
            b,
            full,
        ));
    }
}

/// Appends the escaped form of `text` to `out`.
pub fn xml_escape_into(out: &mut Vec<u8>, text: &Vec<u8>, full: bool)
    ensures
        final(out)@ == old(out)@ + spec_xml_escape(text@, full),
{
    let mut i: usize = 0;
    proof {
        assert(text@.take(0) =~= Seq::<u8>::empty());
        assert(old(out)@ + Seq::<u8>::empty() =~= old(out)@);
    }
    while i < text.len()
        invariant
            i <= text@.len(),
            out@ == old(out)@ + spec_xml_escape(text@.take(i as int), full),
        decreases text@.len() - i,
    {
        let b = text[i];
        proof {
            assert(text@.take(i + 1) =~= text@.take(i as int).push(text@[i as int]));
            lemma_escape_push(text@.take(i as int), text@[i as int], full);
        }
        escape_byte_into(out, b, full);
        proof {
            assert(out@ =~= old(out)@ + (spec_xml_escape(text@.take(i as int), full)
                + escape_byte_xml(text@[i as int], full)));
        }
        i = i + 1;
    }
    proof {
        assert(text@.take(i as int) =~= text@);
    }
}

/// Skips forward from `i`, inside `depth` open elements, to the position just
/// after the close tag matching the outermost of them. Tag names are not
/// checked while skipping. `fuel` bounds the number of steps; one unit covers
/// at least one byte, so the callers pass the document length.
pub open spec fn spec_skip_element(s: Seq<u8>, i: int, depth: nat, fuel: nat) -> Option<int>
    decreases fuel,
{
    if depth == 0 {
        Some(i)
    } else if fuel == 0 {
        None
    } else if !(0 <= i && i < s.len()) {
        None
    } else if s[i] == 60 {
        match spec_close_tag(s, i) {
            Some((_name, j)) => spec_skip_element(s, j, (depth - 1) as nat, (fuel - 1) as nat),
            None => match spec_open_tag(s, i) {
                Some((_name, j, empty)) => {
                    let d = if empty {
                        depth
                    } else {
                        (depth + 1) as nat
                    };
                    spec_skip_element(s, j, d, (fuel - 1) as nat)
                },
                None => None,
            },
        }
    } else {
        spec_skip_element(s, spec_text_end(s, i), depth, (fuel - 1) as nat)
    }
}

/// Executable form of [`spec_skip_element`]. The depth/fuel bound rules out
/// overflow of the depth counter: opening an element costs one unit of fuel.
pub fn skip_element(v: &Vec<u8>, i: usize, depth: usize, fuel: usize) -> (r: Option<usize>)
    requires
        i <= v@.len(),
        depth as int + fuel as int <= v@.len(),
    ensures
        r is None ==> spec_skip_element(v@, i as int, depth as nat, fuel as nat) is None,
        r matches Some(j) ==> spec_skip_element(v@, i as int, depth as nat, fuel as nat)
            == Some(j as int) && j <= v@.len(),
    decreases fuel,
{
    if depth == 0 {
        return Some(i);
    }
    if fuel == 0 {
        return None;
    }
    if i >= v.len() {
        return None;
    }
    if v[i] == 60 {
        match close_tag(v, i) {
            Some((_name, j)) => skip_element(v, j, depth - 1, fuel - 1),
            None => match open_tag(v, i) {
                Some((_name, j, empty)) => {
                    if empty {
                        skip_element(v, j, depth, fuel - 1)
                    } else {
                        skip_element(v, j, depth + 1, fuel - 1)
                    }
                },
                None => None,
            },
        }
    } else {
        let t = text_end(v, i);
        skip_element(v, t, depth, fuel - 1)
    }
}

/// Concatenation of a sequence of byte strings.
pub open spec fn concat_bytes(s: Seq<Seq<u8>>) -> Seq<u8>
    decreases s.len(),
{
    if s.len() == 0 {
        Seq::empty()
    } else {
        s[0] + concat_bytes(s.skip(1))
    }
}

/// Concatenation distributes over appending one piece.
pub proof fn lemma_concat_push(s: Seq<Seq<u8>>, x: Seq<u8>)
    ensures
        concat_bytes(s.push(x)) == concat_bytes(s) + x,
    decreases s.len(),
{
    if s.len() == 0 {
        assert(s.push(x).len() == 1);
        assert(s.push(x)[0] == x);
        assert(s.push(x).skip(1) =~= Seq::<Seq<u8>>::empty());
        assert(concat_bytes(s.push(x).skip(1)) == Seq::<u8>::empty());
        assert(concat_bytes(s.push(x)) == x + Seq::<u8>::empty());
        assert(x + Seq::<u8>::empty() =~= x);
        assert(concat_bytes(s) == Seq::<u8>::empty());
        assert(Seq::<u8>::empty() + x =~= x);
    } else {
        assert(s.push(x).skip(1) =~= s.skip(1).push(x));
        assert(s.push(x)[0] == s[0]);
        lemma_concat_push(s.skip(1), x);
        assert(s[0] + (concat_bytes(s.skip(1)) + x) =~= (s[0] + concat_bytes(s.skip(1))) + x);
    }
}

} // verus!
