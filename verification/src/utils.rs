use vstd::prelude::*;

verus! {

/// The decimal digit character for `d`.
pub open spec fn spec_digit(d: nat) -> char {
    ((48 + d % 10) as u8) as char
}

/// The decimal rendering of `n`, most significant digit first.
pub open spec fn dec_str(n: nat) -> Seq<char>
    decreases n,
{
    if n < 10 {
        seq![spec_digit(n)]
    } else {
        dec_str(n / 10).push(spec_digit(n % 10))
    }
}

/// Two-digit decimal rendering, padded with a leading zero below ten.
pub open spec fn dec2_str(n: nat) -> Seq<char> {
    if n < 10 {
        seq!['0'] + dec_str(n)
    } else {
        dec_str(n)
    }
}

/// Relies on String::push: appends exactly one character at the end.
#[verifier::external_body]
pub fn push_char(s: &mut String, c: char)
    ensures
        final(s)@ == old(s)@.push(c),
{
    s.push(c);
}

/// Renders `n` in decimal.
pub fn u64_to_string(n: u64) -> (r: String)
    ensures
        r@ == dec_str(n as nat),
{
    let mut rev: Vec<char> = Vec::new();
    let mut m = n;
    proof {
        assert(dec_str(n as nat) =~= dec_str(n as nat) + rev@.reverse());
    }
    while m >= 10
        invariant
            dec_str(n as nat) =~= dec_str(m as nat) + rev@.reverse(),
        decreases m,
    {
        let d = m % 10;
        let c = (48 + d as u8) as char;
        proof {
            assert(c == spec_digit(m as nat)) by {
                assert(d == (m as nat) % 10);
            }
            assert(rev@.push(c).reverse() =~= seq![c] + rev@.reverse());
            assert(dec_str(m as nat) == dec_str((m as nat) / 10).push(spec_digit(m as nat)));
            assert(dec_str((m as nat) / 10).push(c) =~= dec_str((m as nat) / 10) + seq![c]);
            assert(dec_str((m as nat) / 10) + seq![c] + rev@.reverse() =~= dec_str((m as nat) / 10)
                + (seq![c] + rev@.reverse()));
        }
        rev.push(c);
        m = m / 10;
    }
    let c = (48 + m as u8) as char;
    proof {
        assert(c == spec_digit(m as nat));
        assert(dec_str(m as nat) =~= seq![c]);
        assert(rev@.push(c).reverse() =~= seq![c] + rev@.reverse());
    }
    rev.push(c);
    let mut r = String::new();
    let k = rev.len();
    let mut i: usize = 0;
    while i < k
        invariant
            k == rev@.len(),
            0 <= i <= k,
            r@ =~= rev@.reverse().take(i as int),
            dec_str(n as nat) == rev@.reverse(),
        decreases k - i,
    {
        proof {
            assert(rev@.reverse()[i as int] == rev@[k - 1 - i]);
            assert(rev@.reverse().take(i + 1) =~= rev@.reverse().take(i as int).push(
                rev@.reverse()[i as int],
            ));
        }
        push_char(&mut r, rev[k - 1 - i]);
        i = i + 1;
    }
    proof {
        assert(r@ =~= rev@.reverse());
    }
    r
}

/// The text that a wall-clock duration of `ms` milliseconds is shown as:
/// fractional seconds below a minute, then minutes and seconds, then hours,
/// minutes and seconds, with exact singular forms at one second, one minute
/// and one hour.
pub open spec fn spec_pretty_ms(ms: nat) -> Seq<char>
    decreases ms,
{
    let s = ms / 1000;
    if ms < 1000 {
        let t = (ms + 50) / 100;
        if t == 10 {
            ("1.0")@ + (" seconds")@
        } else {
            ("0.")@ + dec_str(t) + (" seconds")@
        }
    } else if ms == 1000 {
        ("1 second")@
    } else if ms < 60000 {
        let frac = ms % 1000;
        if frac == 0 {
            dec_str(s) + (" seconds")@
        } else {
            let c = (frac + 5) / 10;
            if c == 100 {
                dec_str((s + 1) as nat) + (".00")@ + (" seconds")@
            } else {
                dec_str(s) + (".")@ + dec2_str(c) + (" seconds")@
            }
        }
    } else if ms == 60000 {
        ("1 minute")@
    } else if ms < 3600000 {
        let minutes = s / 60;
        let rem = s % 60;
        if rem > 0 {
            dec_str(minutes) + (" minutes and ")@ + spec_pretty_ms(rem * 1000)
        } else {
            dec_str(minutes) + (" minutes")@
        }
    } else if ms == 3600000 {
        ("1 hour")@
    } else {
        let hours = s / 3600;
        let hf = if hours == 1 {
            ("1 hour")@
        } else {
            dec_str(hours) + (" hours")@
        };
        let rem_min = (s % 3600) / 60;
        if rem_min > 0 {
            let rem_ms = (ms - hours * 3600000 - rem_min * 60000) as nat;
            if rem_ms > 0 {
                hf + (", ")@ + spec_pretty_ms(rem_min * 60000) + (" and ")@ + spec_pretty_ms(rem_ms)
            } else {
                hf + (" and ")@ + spec_pretty_ms(rem_min * 60000)
            }
        } else {
            hf
        }
    }
}

/// Shows a duration of `duration_ms` milliseconds as readable text.
pub fn prettify_duration(duration_ms: u64) -> (r: String)
    ensures
        r@ == spec_pretty_ms(duration_ms as nat),
    decreases duration_ms,
{
    let s = duration_ms / 1000;
    if duration_ms < 1000 {
        let t = (duration_ms + 50) / 100;
        if t == 10 {
            let mut r = String::from_str("1.0");
            r.append(" seconds");
            r
        } else {
            let mut r = String::from_str("0.");
            let ts = u64_to_string(t);
            r.append(ts.as_str());
            r.append(" seconds");
            r
        }
    } else if duration_ms == 1000 {
        String::from_str("1 second")
    } else if duration_ms < 60000 {
        let frac = duration_ms % 1000;
        if frac == 0 {
            let mut r = u64_to_string(s);
            r.append(" seconds");
            r
        } else {
            let c = (frac + 5) / 10;
            if c == 100 {
                let mut r = u64_to_string(s + 1);
                r.append(".00");
                r.append(" seconds");
                r
            } else {
                let mut r = u64_to_string(s);
                r.append(".");
                let cs = if c < 10 {
                    let mut p = String::from_str("0");
                    let ds = u64_to_string(c);
                    p.append(ds.as_str());
                    proof {
                        reveal_strlit("0");
                        assert(("0")@ =~= seq!['0']);
                        assert(p@ =~= dec2_str(c as nat));
                    }
                    p
                } else {
                    u64_to_string(c)
                };
                r.append(cs.as_str());
                r.append(" seconds");
                r
            }
        }
    } else if duration_ms == 60000 {
        String::from_str("1 minute")
    } else if duration_ms < 3600000 {
        let minutes = s / 60;
        let rem = s % 60;
        if rem > 0 {
            let mut r = u64_to_string(minutes);
            r.append(" minutes and ");
            let tail = prettify_duration(rem * 1000);
            r.append(tail.as_str());
            r
        } else {
            let mut r = u64_to_string(minutes);
            r.append(" minutes");
            r
        }
    } else if duration_ms == 3600000 {
        String::from_str("1 hour")
    } else {
        let hours = s / 3600;
        let mut r = if hours == 1 {
            String::from_str("1 hour")
        } else {
            let mut h = u64_to_string(hours);
            h.append(" hours");
            h
        };
        let rem_min = (s % 3600) / 60;
        if rem_min > 0 {
            let rem_ms = duration_ms - hours * 3600000 - rem_min * 60000;
            let mf = prettify_duration(rem_min * 60000);
            if rem_ms > 0 {
                r.append(", ");
                r.append(mf.as_str());
                r.append(" and ");
                let sf = prettify_duration(rem_ms);
                r.append(sf.as_str());
            } else {
                r.append(" and ");
                r.append(mf.as_str());
            }
        }
        r
    }
}

/// A run of `n` spaces.
pub open spec fn spec_spaces(n: nat) -> Seq<char> {
    Seq::new(n, |i: int| ' ')
}

/// A cell's text fitted to exactly `max` characters: longer text is cut and
/// ended with an ellipsis, shorter text is padded with spaces on the right.
pub open spec fn spec_collapse(s: Seq<char>, max: nat) -> Seq<char> {
    let t = if s.len() > max {
        s.take((max - 3) as int) + ("...")@
    } else {
        s
    };
    if t.len() < max {
        t + spec_spaces((max - t.len()) as nat)
    } else {
        t
    }
}

/// Fits `input` to exactly `max_length` characters, cutting with an ellipsis
/// or padding with spaces.
pub fn collapse_str(input: &String, max_length: usize) -> (r: String)
    requires
        max_length >= 3,
    ensures
        r@ == spec_collapse(input@, max_length as nat),
{
    proof {
        reveal_strlit("...");
        assert(("...")@ =~= seq!['.', '.', '.']);
    }
    let len = input.as_str().unicode_len();
    let mut t = if len > max_length {
        let mut cut = String::from_str(input.as_str().substring_char(0, max_length - 3));
        cut.append("...");
        cut
    } else {
        input.clone()
    };
    let ghost t0 = t@;
    let tlen = t.as_str().unicode_len();
    let mut i: usize = tlen;
    proof {
        assert(t@ =~= t0 + spec_spaces((i - t0.len()) as nat));
    }
    while i < max_length
        invariant
            t0.len() <= i <= max_length,
            t@ =~= t0 + spec_spaces((i - t0.len()) as nat),
        decreases max_length - i,
    {
        proof {
            assert((t0 + spec_spaces((i - t0.len()) as nat)).push(' ') =~= t0 + spec_spaces(
                (i + 1 - t0.len()) as nat,
            ));
        }
        push_char(&mut t, ' ');
        i = i + 1;
    }
    proof {
        if t0.len() < max_length {
            assert(t@ =~= spec_collapse(input@, max_length as nat));
        } else {
            assert(t@ =~= t0);
            assert(t@ =~= spec_collapse(input@, max_length as nat));
        }
    }
    t
}


/// One table row: each cell fitted to the column width, cells joined with a
/// separator, from cell `i` on.
pub open spec fn spec_table_row(cells: Seq<Seq<char>>, i: int) -> Seq<char>
    decreases cells.len() - i,
{
    if i < 0 || i >= cells.len() {
        Seq::empty()
    } else {
        let cell = spec_collapse(cells[i], 25);
        if i == cells.len() - 1 {
            cell
        } else {
            cell + (" | ")@ + spec_table_row(cells, i + 1)
        }
    }
}

/// Renders one table row: cells fitted to 25 characters, joined with a
/// separator.
pub fn render_table_row(cells: &Vec<String>) -> (r: String)
    ensures
        r@ == spec_table_row(crate::config::strs_model(cells@), 0),
{
    let ghost cm = crate::config::strs_model(cells@);
    let mut out = String::new();
    let n = cells.len();
    let mut i: usize = 0;
    proof {
        if n == 0 {
            assert(out@ =~= spec_table_row(cm, 0));
        }
    }
    while i < n
        invariant
            n == cells@.len(),
            cm == crate::config::strs_model(cells@),
            0 <= i <= n,
            out@ + spec_table_row(cm, i as int) =~= spec_table_row(cm, 0),
            i == n ==> out@ =~= spec_table_row(cm, 0),
        decreases n - i,
    {
        let cell = collapse_str(&cells[i], 25);
        out.append(cell.as_str());
        if i < n - 1 {
            out.append(" | ");
        }
        proof {
            assert(cm[i as int] == cells@[i as int]@);
            if i < n - 1 {
                assert((out@ + spec_table_row(cm, i + 1)) =~= spec_table_row(cm, 0));
            } else {
                assert(spec_table_row(cm, i as int) == spec_collapse(cm[i as int], 25));
                assert(out@ =~= spec_table_row(cm, 0));
                assert(out@ + spec_table_row(cm, i + 1) =~= spec_table_row(cm, 0));
            }
        }
        i = i + 1;
    }
    out
}

/// A separator line of `n` dashes.
pub fn dash_line(n: usize) -> (r: String)
    ensures
        r@ == Seq::new(n as nat, |i: int| '-'),
{
    let mut out = String::new();
    let mut i: usize = 0;
    proof {
        assert(out@ =~= Seq::new(0nat, |i: int| '-'));
    }
    while i < n
        invariant
            0 <= i <= n,
            out@ =~= Seq::new(i as nat, |j: int| '-'),
        decreases n - i,
    {
        proof {
            assert(Seq::new((i + 1) as nat, |j: int| '-') =~= Seq::new(i as nat, |j: int| '-').push(
                '-',
            ));
        }
        push_char(&mut out, '-');
        i = i + 1;
    }
    out
}

/// The cells of one job's table row: its name, then each request's status.
pub fn job_row_cells(job: &crate::job::JobDTO) -> (r: Vec<String>)
    ensures
        crate::config::strs_model(r@) == seq![job@.job_name] + job@.requests.map_values(
            |rm: crate::request::RequestModel| crate::request::spec_status_text(rm),
        ),
{
    let mut cells: Vec<String> = Vec::new();
    cells.push(job.job_name.clone());
    let n = job.requests.len();
    let mut i: usize = 0;
    while i < n
        invariant
            n == job.requests@.len(),
            cells@.len() == i + 1,
            0 <= i <= n,
            cells@[0]@ == job@.job_name,
            forall|j: int|
                0 <= j < i ==> (#[trigger] cells@[j + 1])@ == crate::request::spec_status_text(
                    job@.requests[j],
                ),
        decreases n - i,
    {
        cells.push(job.requests[i].get_status_text());
        i = i + 1;
    }
    proof {
        let want = seq![job@.job_name] + job@.requests.map_values(
            |rm: crate::request::RequestModel| crate::request::spec_status_text(rm),
        );
        assert forall|idx: int| 0 <= idx < cells@.len() implies #[trigger] crate::config::strs_model(
            cells@,
        )[idx] == want[idx] by {
            if idx == 0 {
            } else {
                assert(cells@[(idx - 1) + 1]@ == crate::request::spec_status_text(
                    job@.requests[idx - 1],
                ));
            }
        }
        assert(crate::config::strs_model(cells@) =~= want);
    }
    cells
}

/// The moods an emoji can show.
pub enum EmojiType {
    Sad,
    Happy,
}

/// The emoji a sad draw can land on.
pub open spec fn sad_emoji_texts() -> Seq<Seq<char>> {
    seq![
        ("\u{1F922}")@,
        ("\u{1F62B}")@,
        ("\u{1F641}")@,
        ("\u{1F613}")@,
        ("\u{1F615}")@,
        ("\u{1F912}")@,
        ("\u{1F915}")@,
    ]
}

/// The emoji a happy draw can land on.
pub open spec fn happy_emoji_texts() -> Seq<Seq<char>> {
    seq![
        ("\u{1F600}")@,
        ("\u{1F601}")@,
        ("\u{1F603}")@,
        ("\u{1F973}")@,
        ("\u{1F60A}")@,
        ("\u{1F60E}")@,
        ("\u{1F929}")@,
    ]
}

/// Relies on rand::random_range over an index range: some index below the
/// bound; which one is chance.
#[verifier::external_body]
fn pick_index(n: usize) -> (r: usize)
    requires
        n > 0,
    ensures
        r < n,
{
    rand::random_range(0..n)
}

/// One of a fixed list of emoji for the mood; which one is chance.
pub fn get_random_emoji(mood: EmojiType) -> (r: String)
    ensures
        r@.len() > 0,
        (mood matches EmojiType::Sad) ==> sad_emoji_texts().contains(r@),
        (mood matches EmojiType::Happy) ==> happy_emoji_texts().contains(r@),
{
    let mut choices: Vec<String> = Vec::new();
    match mood {
        EmojiType::Sad => {
            choices.push(String::from_str("\u{1F922}"));
            choices.push(String::from_str("\u{1F62B}"));
            choices.push(String::from_str("\u{1F641}"));
            choices.push(String::from_str("\u{1F613}"));
            choices.push(String::from_str("\u{1F615}"));
            choices.push(String::from_str("\u{1F912}"));
            choices.push(String::from_str("\u{1F915}"));
        }
        EmojiType::Happy => {
            choices.push(String::from_str("\u{1F600}"));
            choices.push(String::from_str("\u{1F601}"));
            choices.push(String::from_str("\u{1F603}"));
            choices.push(String::from_str("\u{1F973}"));
            choices.push(String::from_str("\u{1F60A}"));
            choices.push(String::from_str("\u{1F60E}"));
            choices.push(String::from_str("\u{1F929}"));
        }
    }
    let i = pick_index(choices.len());
    let ghost ch = choices@;
    let picked = choices.remove(i);
    proof {
        assert(picked == ch[i as int]);
        assert(ch.len() == 7);
        match mood {
            EmojiType::Sad => {
                assert(sad_emoji_texts()[i as int] == ch[i as int]@) by {
                    if i == 0 {
                    } else if i == 1 {
                    } else if i == 2 {
                    } else if i == 3 {
                    } else if i == 4 {
                    } else if i == 5 {
                    } else {
                    }
                }
                assert(sad_emoji_texts().contains(picked@));
            }
            EmojiType::Happy => {
                assert(happy_emoji_texts()[i as int] == ch[i as int]@) by {
                    if i == 0 {
                    } else if i == 1 {
                    } else if i == 2 {
                    } else if i == 3 {
                    } else if i == 4 {
                    } else if i == 5 {
                    } else {
                    }
                }
                assert(happy_emoji_texts().contains(picked@));
            }
        }
        reveal_strlit("\u{1F922}");
        reveal_strlit("\u{1F62B}");
        reveal_strlit("\u{1F641}");
        reveal_strlit("\u{1F613}");
        reveal_strlit("\u{1F615}");
        reveal_strlit("\u{1F912}");
        reveal_strlit("\u{1F915}");
        reveal_strlit("\u{1F600}");
        reveal_strlit("\u{1F601}");
        reveal_strlit("\u{1F603}");
        reveal_strlit("\u{1F973}");
        reveal_strlit("\u{1F60A}");
        reveal_strlit("\u{1F60E}");
        reveal_strlit("\u{1F929}");
    }
    picked
}

} // verus!
