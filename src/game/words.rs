use vstd::prelude::*;
use vstd::string::*;

verus! {

/// A character with the Unicode `White_Space` property: what separates the
/// cells of a row.
pub open spec fn is_blank(c: char) -> bool {
    let v = c as u32;
    (0x09 <= v && v <= 0x0d) || v == 0x20 || v == 0x85 || v == 0xa0 || v == 0x1680 || (0x2000 <= v
        && v <= 0x200a) || v == 0x2028 || v == 0x2029 || v == 0x202f || v == 0x205f || v == 0x3000
}

/// The words of `s`: its maximal runs of characters that are not blank, in
/// order.
pub open spec fn words(s: Seq<char>) -> Seq<Seq<char>>
    decreases s.len(),
{
    if s.len() == 0 {
        seq![]
    } else {
        let rest = s.drop_last();
        let c = s.last();
        let w = words(rest);
        if is_blank(c) {
            w
        } else if rest.len() > 0 && !is_blank(rest.last()) {
            w.update(w.len() - 1, w.last().push(c))
        } else {
            w.push(seq![c])
        }
    }
}

/// Whether `c` is blank.
pub fn blank(c: char) -> (r: bool)
    ensures
        r == is_blank(c),
{
    let v = c as u32;
    (0x09 <= v && v <= 0x0d) || v == 0x20 || v == 0x85 || v == 0xa0 || v == 0x1680 || (0x2000 <= v
        && v <= 0x200a) || v == 0x2028 || v == 0x2029 || v == 0x202f || v == 0x205f || v == 0x3000
}

/// A word ending at the end of `s` is open exactly when `s` ends in a
/// character that is not blank; the words are then never empty.
pub proof fn lemma_words_shape(s: Seq<char>)
    ensures
        s.len() > 0 && !is_blank(s.last()) ==> words(s).len() > 0,
        forall|j: int| 0 <= j < words(s).len() ==> #[trigger] words(s)[j].len() > 0,
        2 * words(s).len() <= s.len() + (if s.len() > 0 && !is_blank(s.last()) { 1int } else { 0 }),
    decreases s.len(),
{
    if s.len() > 0 {
        lemma_words_shape(s.drop_last());
    }
}

/// Splits `line` into its words.
pub fn split_words(line: &str) -> (r: Vec<String>)
    ensures
        r@.map_values(|w: String| w@) == words(line@),
{
    let n = line.unicode_len();
    let ghost s = line@;
    let mut out: Vec<String> = Vec::new();
    let mut start: usize = 0;
    let mut in_word = false;
    let mut i: usize = 0;
    while i < n
        invariant
            n == s.len(),
            s == line@,
            i <= n,
            start <= i,
            in_word <==> (i > 0 && !is_blank(s[i - 1])),
            in_word ==> words(s.take(i as int)) == out@.map_values(|w: String| w@).push(
                s.subrange(start as int, i as int),
            ),
            !in_word ==> words(s.take(i as int)) == out@.map_values(|w: String| w@),
        decreases n - i,
    {
        let c = line.get_char(i);
        assert(s.take(i + 1).drop_last() =~= s.take(i as int));
        assert(s.take(i + 1).last() == c);
        if blank(c) {
            if in_word {
                let ghost before = out@.map_values(|w: String| w@);
                let w = line.substring_char(start, i).to_owned();
                out.push(w);
                assert(out@.map_values(|w: String| w@) =~= before.push(s.subrange(start as int, i as int)));
            }
            in_word = false;
        } else {
            if !in_word {
                start = i;
                in_word = true;
                assert(s.subrange(i as int, i + 1) =~= seq![c]);
            } else {
                assert(s.subrange(start as int, i + 1) =~= s.subrange(start as int, i as int).push(c));
            }
        }
        i += 1;
    }
    if in_word {
        let ghost before = out@.map_values(|w: String| w@);
        let w = line.substring_char(start, n).to_owned();
        out.push(w);
        assert(out@.map_values(|w: String| w@) =~= before.push(s.subrange(start as int, n as int)));
    }
    assert(s.take(n as int) =~= s);
    proof {
        assert(out@.map_values(|w: String| w@) =~= words(s));
    }
    out
}

} // verus!
