use vstd::prelude::*;

verus! {

/// Index of the first `'>'` in `s`, or `s.len()` when there is none.
pub open spec fn first_gt(s: Seq<char>) -> nat
    decreases s.len(),
{
    if s.len() == 0 {
        0
    } else if s[0] == '>' {
        0
    } else {
        (1 + first_gt(s.skip(1))) as nat
    }
}

pub proof fn lemma_first_gt(s: Seq<char>)
    ensures
        0 <= first_gt(s) <= s.len(),
        first_gt(s) < s.len() ==> s[first_gt(s) as int] == '>',
        forall|i: int| 0 <= i < first_gt(s) ==> s[i] != '>',
    decreases s.len(),
{
    if s.len() == 0 {
    } else if s[0] == '>' {
    } else {
        lemma_first_gt(s.skip(1));
        assert forall|i: int| 0 <= i < first_gt(s) implies s[i] != '>' by {
            if i > 0 {
                assert(s.skip(1)[i - 1] == s[i]);
            }
        }
    }
}

/// The placeholder names of a template, in order of occurrence: each is the
/// non-empty text between a `'<'` and the next `'>'`; scanning resumes after
/// that `'>'`.
pub open spec fn spec_placeholders(s: Seq<char>) -> Seq<Seq<char>>
    decreases s.len(),
{
    if s.len() == 0 {
        Seq::empty()
    } else if s[0] == '<' {
        let j = first_gt(s.skip(1));
        if j >= s.len() - 1 {
            Seq::empty()
        } else if j == 0 {
            spec_placeholders(s.skip(1))
        } else {
            seq![s.subrange(1, j + 1 as int)] + spec_placeholders(s.skip(j + 2 as int))
        }
    } else {
        spec_placeholders(s.skip(1))
    }
}

/// Collects the placeholder names of `input_string`, in order of occurrence.
pub fn get_placeholders_from_string(input_string: &str) -> (r: Vec<String>)
    ensures
        r.deep_view() == spec_placeholders(input_string@),
{
    let mut result: Vec<String> = Vec::new();
    let len = input_string.unicode_len();
    let mut i: usize = 0;
    proof {
        assert(input_string@.skip(0) =~= input_string@);
        assert(result.deep_view() + spec_placeholders(input_string@) =~= spec_placeholders(
            input_string@,
        ));
    }
    while i < len
        invariant
            0 <= i <= len,
            len == input_string@.len(),
            result.deep_view() + spec_placeholders(input_string@.skip(i as int))
                =~= spec_placeholders(input_string@),
        decreases len - i,
    {
        let ghost s = input_string@.skip(i as int);
        if input_string.get_char(i) == '<' {
            // look for the closing '>' after the '<'
            let mut j: usize = i + 1;
            while j < len && input_string.get_char(j) != '>'
                invariant
                    i + 1 <= j <= len,
                    len == input_string@.len(),
                    i < len,
                    forall|k: int| i + 1 <= k < j ==> input_string@[k] != '>',
                decreases len - j,
            {
                j = j + 1;
            }
            proof {
                lemma_first_gt(s.skip(1));
                assert(s.skip(1) =~= input_string@.skip(i + 1));
                if j < len {
                    assert(input_string@[j as int] == '>');
                    assert(s.skip(1)[j - i - 1] == input_string@[j as int]);
                    assert forall|k: int| 0 <= k < j - i - 1 implies s.skip(1)[k] != '>' by {
                        assert(s.skip(1)[k] == input_string@[k + i + 1]);
                    }
                    assert(first_gt(s.skip(1)) == j - i - 1);
                } else {
                    assert forall|k: int| 0 <= k < s.skip(1).len() implies s.skip(1)[k] != '>' by {
                        assert(s.skip(1)[k] == input_string@[k + i + 1]);
                    }
                    assert(first_gt(s.skip(1)) == s.skip(1).len());
                }
            }
            if j >= len {
                // no closing '>' anywhere after this point: no further names
                proof {
                    assert(result.deep_view() + spec_placeholders(s) =~= result.deep_view());
                }
                return result;
            } else if j == i + 1 {
                // empty name: keep scanning right after the '<'
                proof {
                    assert(spec_placeholders(s) == spec_placeholders(s.skip(1)));
                    assert(s.skip(1) =~= input_string@.skip(i + 1));
                }
                i = i + 1;
            } else {
                let name = String::from_str(input_string.substring_char(i + 1, j));
                proof {
                    let jj = first_gt(s.skip(1));
                    assert(jj == j - i - 1);
                    assert(spec_placeholders(s) == seq![s.subrange(1, jj + 1 as int)]
                        + spec_placeholders(s.skip(jj + 2 as int)));
                    assert(s.subrange(1, jj + 1 as int) =~= input_string@.subrange(i + 1, j as int));
                    assert(s.skip(jj + 2 as int) =~= input_string@.skip(j + 1));
                    assert(result.deep_view().push(name@) =~= result.deep_view() + seq![name@]);
                    assert((result.deep_view() + seq![name@]) + spec_placeholders(
                        input_string@.skip(j + 1),
                    ) =~= result.deep_view() + (seq![name@] + spec_placeholders(
                        input_string@.skip(j + 1),
                    )));
                }
                result.push(name);
                i = j + 1;
            }
        } else {
            proof {
                assert(spec_placeholders(s) == spec_placeholders(s.skip(1)));
                assert(s.skip(1) =~= input_string@.skip(i + 1));
            }
            i = i + 1;
        }
    }
    proof {
        assert(input_string@.skip(i as int) =~= Seq::<char>::empty());
        assert(result.deep_view() + spec_placeholders(input_string@.skip(i as int))
            =~= result.deep_view());
    }
    result
}

/// `s` with every occurrence of `pat` replaced by `val`, scanning left to
/// right without overlap.
pub open spec fn spec_replace_all(s: Seq<char>, pat: Seq<char>, val: Seq<char>) -> Seq<char>
    decreases s.len(),
    when pat.len() > 0
{
    if s.len() < pat.len() {
        s
    } else if s.take(pat.len() as int) == pat {
        val + spec_replace_all(s.skip(pat.len() as int), pat, val)
    } else {
        s.take(1) + spec_replace_all(s.skip(1), pat, val)
    }
}

/// The pattern that stands for a placeholder named `key`: `<key>`.
pub open spec fn spec_pattern(key: Seq<char>) -> Seq<char> {
    seq!['<'] + key + seq!['>']
}

/// Whether `s` has `pat` at position `i`.
fn matches_at(s: &str, len: usize, i: usize, pat: &str, pat_len: usize) -> (r: bool)
    requires
        len == s@.len(),
        pat_len == pat@.len(),
        i + pat_len <= len,
    ensures
        r == (s@.subrange(i as int, i + pat_len) == pat@),
{
    let mut k: usize = 0;
    while k < pat_len
        invariant
            0 <= k <= pat_len,
            len == s@.len(),
            pat_len == pat@.len(),
            i + pat_len <= len,
            forall|m: int| 0 <= m < k ==> s@[i + m] == pat@[m],
        decreases pat_len - k,
    {
        if s.get_char(i + k) != pat.get_char(k) {
            proof {
                assert(s@.subrange(i as int, i + pat_len)[k as int] == s@[i + k]);
            }
            return false;
        }
        k = k + 1;
    }
    proof {
        assert(s@.subrange(i as int, i + pat_len) =~= pat@);
    }
    true
}

/// Replaces every `<key>` in `input_string` by `value`.
pub fn replace_placeholder_with_value(input_string: &str, key: &str, value: &str) -> (r: String)
    ensures
        r@ == spec_replace_all(input_string@, spec_pattern(key@), value@),
{
    let mut pat = String::from_str("<");
    pat.append(key);
    pat.append(">");
    proof {
        reveal_strlit("<");
        reveal_strlit(">");
        assert(pat@ =~= spec_pattern(key@));
    }
    let pat_len = pat.as_str().unicode_len();
    let len = input_string.unicode_len();
    let mut out = String::new();
    let mut i: usize = 0;
    proof {
        assert(input_string@.skip(0) =~= input_string@);
        assert(out@ + spec_replace_all(input_string@, pat@, value@) =~= spec_replace_all(
            input_string@,
            pat@,
            value@,
        ));
    }
    while i < len
        invariant
            0 <= i <= len,
            len == input_string@.len(),
            pat@ == spec_pattern(key@),
            pat_len == pat@.len(),
            pat_len >= 2,
            out@ + spec_replace_all(input_string@.skip(i as int), pat@, value@)
                =~= spec_replace_all(input_string@, pat@, value@),
        decreases len - i,
    {
        let ghost s = input_string@.skip(i as int);
        if pat_len <= len - i && matches_at(input_string, len, i, pat.as_str(), pat_len) {
            proof {
                assert(s.take(pat_len as int) =~= input_string@.subrange(i as int, i + pat_len));
                assert(s.skip(pat_len as int) =~= input_string@.skip(i + pat_len));
                assert(spec_replace_all(s, pat@, value@) == value@ + spec_replace_all(
                    input_string@.skip(i + pat_len),
                    pat@,
                    value@,
                ));
                assert((out@ + value@) + spec_replace_all(input_string@.skip(i + pat_len), pat@, value@)
                    =~= out@ + (value@ + spec_replace_all(input_string@.skip(i + pat_len), pat@, value@)));
            }
            out.append(value);
            i = i + pat_len;
        } else {
            let c = input_string.get_char(i);
            proof {
                if s.len() >= pat_len {
                    assert(s.take(pat_len as int) =~= input_string@.subrange(i as int, i + pat_len));
                }
                assert(spec_replace_all(s, pat@, value@) == s.take(1) + spec_replace_all(
                    s.skip(1),
                    pat@,
                    value@,
                ));
                assert(s.take(1) =~= seq![c]);
                assert(s.skip(1) =~= input_string@.skip(i + 1));
                assert(out@.push(c) =~= out@ + seq![c]);
                assert((out@ + seq![c]) + spec_replace_all(input_string@.skip(i + 1), pat@, value@)
                    =~= out@ + (seq![c] + spec_replace_all(input_string@.skip(i + 1), pat@, value@)));
            }
            crate::utils::push_char(&mut out, c);
            i = i + 1;
        }
    }
    proof {
        assert(input_string@.skip(i as int) =~= Seq::<char>::empty());
        assert(out@ + spec_replace_all(input_string@.skip(i as int), pat@, value@) =~= out@);
    }
    out
}

/// Whether a character is refused in file names.
pub open spec fn is_special_char(c: char) -> bool {
    c == '<' || c == '>' || c == '"' || c == '/' || c == '\\' || c == '|' || c == '?' || c == '*'
}

/// `s` with every character that file names refuse turned into a space.
pub open spec fn spec_clean_filename(s: Seq<char>) -> Seq<char> {
    s.map_values(|c: char| if is_special_char(c) { ' ' } else { c })
}

/// Replaces the characters `<>"/\|?*` with spaces, for use in file names.
pub fn clean_special_chars_for_filename(input: &str) -> (r: String)
    ensures
        r@ == spec_clean_filename(input@),
{
    let len = input.unicode_len();
    let mut out = String::new();
    let mut i: usize = 0;
    while i < len
        invariant
            0 <= i <= len,
            len == input@.len(),
            out@ =~= spec_clean_filename(input@).take(i as int),
        decreases len - i,
    {
        let c = input.get_char(i);
        let mapped = if c == '<' || c == '>' || c == '"' || c == '/' || c == '\\' || c == '|'
            || c == '?' || c == '*' {
            ' '
        } else {
            c
        };
        proof {
            assert(spec_clean_filename(input@)[i as int] == mapped);
            assert(spec_clean_filename(input@).take(i + 1) =~= spec_clean_filename(
                input@,
            ).take(i as int).push(mapped));
        }
        crate::utils::push_char(&mut out, mapped);
        i = i + 1;
    }
    proof {
        assert(spec_clean_filename(input@).take(i as int) =~= spec_clean_filename(input@));
    }
    out
}

} // verus!
