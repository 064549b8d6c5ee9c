//! X resource database text handling: building the modified resource
//! string that forces a cursor size and theme, and reading the original
//! cursor settings back out of a parsed database.

use vstd::prelude::*;
use vstd::string::StringSliceAdditionalSpecFns;

verus! {

/// `l` begins with the bytes of `p`.
pub open spec fn starts_with(l: Seq<u8>, p: Seq<u8>) -> bool {
    l.len() >= p.len() && l.subrange(0, p.len() as int) == p
}

/// The index of the first newline byte in `s`, or `s.len()` if none.
pub open spec fn find_nl(s: Seq<u8>) -> nat
    decreases s.len(),
{
    if s.len() == 0 {
        0
    } else if s[0] == 10u8 {
        0
    } else {
        (1 + find_nl(s.drop_first())) as nat
    }
}

/// A line with a trailing carriage return loses it, as `str::lines` does.
pub open spec fn strip_cr(l: Seq<u8>) -> Seq<u8> {
    if l.len() > 0 && l.last() == 13u8 {
        l.drop_last()
    } else {
        l
    }
}

/// Split `s` at newline bytes into lines, dropping each line's trailing
/// carriage return; a trailing newline produces no final empty line. These
/// are the semantics of `str::lines`.
pub open spec fn split_lines(s: Seq<u8>) -> Seq<Seq<u8>>
    decreases s.len(),
{
    if s.len() == 0 {
        Seq::empty()
    } else {
        let i = find_nl(s);
        if i >= s.len() {
            seq![strip_cr(s)]
        } else {
            seq![strip_cr(s.take(i as int))] + split_lines(s.skip(i + 1 as int))
        }
    }
}

/// The lines removed before injecting new cursor settings: any line that
/// sets the cursor size, the cursor theme, or the theme-core flag.
pub open spec fn line_dropped(l: Seq<u8>) -> bool {
    ||| starts_with(l, "Xcursor.size".spec_bytes())
    ||| starts_with(l, "Xcursor.theme_core".spec_bytes())
    ||| starts_with(l, "Xcursor.theme".spec_bytes())
}

/// Join the lines of `ls` that are not dropped, with a newline between
/// consecutive kept lines; `first` says whether no line has been kept yet.
pub open spec fn join_kept(ls: Seq<Seq<u8>>, first: bool) -> Seq<u8>
    decreases ls.len(),
{
    if ls.len() == 0 {
        Seq::empty()
    } else if line_dropped(ls[0]) {
        join_kept(ls.drop_first(), first)
    } else if first {
        ls[0] + join_kept(ls.drop_first(), false)
    } else {
        seq![10u8] + ls[0] + join_kept(ls.drop_first(), false)
    }
}

/// The decimal digits of `n`, most significant first.
pub open spec fn dec_digits(n: nat) -> Seq<u8>
    decreases n,
{
    if n < 10 {
        seq![(48 + n) as u8]
    } else {
        dec_digits(n / 10) + seq![(48 + n % 10) as u8]
    }
}

/// The modified resource string: the original with every cursor-size,
/// cursor-theme and theme-core line removed, then the desired size and
/// theme appended.
pub open spec fn built_resource_string(s: Seq<u8>, size: u32, theme: Seq<u8>) -> Seq<u8> {
    join_kept(split_lines(s), true) + "\nXcursor.size: ".spec_bytes() + dec_digits(size as nat)
        + "\nXcursor.theme: ".spec_bytes() + theme + seq![10u8]
}

proof fn lemma_find_nl_at(t: Seq<u8>, m: int)
    requires
        0 <= m <= t.len(),
        forall|k: int| 0 <= k < m ==> t[k] != 10u8,
        m < t.len() ==> t[m] == 10u8,
    ensures
        find_nl(t) == m,
    decreases m,
{
    if t.len() > 0 && t[0] != 10u8 {
        assert(forall|k: int|
            0 <= k < t.drop_first().len() ==> t.drop_first()[k] == t[k + 1]);
        lemma_find_nl_at(t.drop_first(), m - 1);
    }
}

/// Append the decimal digits of `n` to `out`.
fn push_decimal(out: &mut Vec<u8>, n: u32)
    ensures
        final(out)@ == old(out)@ + dec_digits(n as nat),
    decreases n,
{
    if n < 10 {
        out.push(48 + n as u8);
        assert(final(out)@ =~= old(out)@ + dec_digits(n as nat));
    } else {
        push_decimal(out, n / 10);
        out.push(48 + (n % 10) as u8);
        assert(final(out)@ =~= old(out)@ + dec_digits(n as nat));
    }
}

/// Does `s[lo..hi]` begin with `p`?
fn range_starts_with(s: &Vec<u8>, lo: usize, hi: usize, p: &Vec<u8>) -> (r: bool)
    requires
        lo <= hi <= s@.len(),
    ensures
        r == starts_with(s@.subrange(lo as int, hi as int), p@),
{
    if hi - lo < p.len() {
        return false;
    }
    let mut k: usize = 0;
    while k < p.len()
        invariant
            lo <= hi <= s@.len(),
            p@.len() <= hi - lo,
            0 <= k <= p@.len(),
            forall|m: int| 0 <= m < k ==> s@.subrange(lo as int, hi as int)[m] == p@[m],
        decreases p@.len() - k,
    {
        if s[lo + k] != p[k] {
            return false;
        }
        k = k + 1;
    }
    proof {
        assert(s@.subrange(lo as int, hi as int).subrange(0, p@.len() as int) =~= p@);
    }
    true
}

/// Build the modified X resource string that `set_cursor_size` installs:
/// strip every line that sets the cursor size, theme or theme-core flag
/// (joining the survivors with newlines, as `str::lines` + `join` would),
/// then append the desired `Xcursor.size` and `Xcursor.theme` entries.
#[verifier::rlimit(60)]
pub fn build_cursor_resource_string(original: &Vec<u8>, size: u32, theme: &str) -> (out: Vec<
    u8,
>)
    ensures
        out@ == built_resource_string(original@, size, theme.spec_bytes()),
{
    let ghost s = original@;
    let n = original.len();
    let p_size = vstd::slice::slice_to_vec("Xcursor.size".as_bytes());
    let p_theme_core = vstd::slice::slice_to_vec("Xcursor.theme_core".as_bytes());
    let p_theme = vstd::slice::slice_to_vec("Xcursor.theme".as_bytes());
    let mut out: Vec<u8> = Vec::new();
    let mut first = true;
    let mut pos: usize = 0;
    proof {
        assert(s.skip(0) =~= s);
    }
    while pos < n
        invariant
            s == original@,
            n == s.len(),
            0 <= pos <= n,
            p_size@ == "Xcursor.size".spec_bytes(),
            p_theme_core@ == "Xcursor.theme_core".spec_bytes(),
            p_theme@ == "Xcursor.theme".spec_bytes(),
            join_kept(split_lines(s), true) == out@ + join_kept(
                split_lines(s.skip(pos as int)),
                first,
            ),
        decreases n - pos,
    {
        let mut j = pos;
        while j < n && original[j] != 10
            invariant
                s == original@,
                n == s.len(),
                pos <= j <= n,
                forall|k: int| pos <= k < j ==> s[k] != 10u8,
            decreases n - j,
        {
            j = j + 1;
        }
        let ghost suffix = s.skip(pos as int);
        proof {
            assert(forall|k: int| 0 <= k < suffix.len() ==> suffix[k] == s[k + pos]);
            lemma_find_nl_at(suffix, j - pos);
        }
        let mut end = j;
        if end > pos && original[end - 1] == 13 {
            end = end - 1;
        }
        let ghost line = strip_cr(s.subrange(pos as int, j as int));
        let ghost rest = if j < n {
            split_lines(s.skip(j + 1))
        } else {
            Seq::<Seq<u8>>::empty()
        };
        proof {
            assert(line =~= s.subrange(pos as int, end as int));
            if j < n {
                assert(suffix.take(find_nl(suffix) as int) =~= s.subrange(pos as int, j as int));
                assert(suffix.skip(find_nl(suffix) + 1 as int) =~= s.skip(j + 1));
                assert(split_lines(suffix) == seq![line] + rest);
            } else {
                assert(suffix =~= s.subrange(pos as int, j as int));
                assert(split_lines(suffix) == seq![line]);
                assert(seq![line] + rest =~= seq![line]);
            }
            assert(split_lines(suffix) == seq![line] + rest);
            assert((seq![line] + rest)[0] == line);
            assert((seq![line] + rest).drop_first() =~= rest);
        }
        let dropped = range_starts_with(original, pos, end, &p_size) || range_starts_with(
            original,
            pos,
            end,
            &p_theme_core,
        ) || range_starts_with(original, pos, end, &p_theme);
        proof {
            assert(dropped == line_dropped(line));
            if dropped {
                assert(join_kept(seq![line] + rest, first) == join_kept(rest, first));
            } else if first {
                assert(join_kept(seq![line] + rest, true) == line + join_kept(rest, false));
            } else {
                assert(join_kept(seq![line] + rest, false) == seq![10u8] + line + join_kept(
                    rest,
                    false,
                ));
            }
        }
        let ghost out_at_start = out@;
        let ghost first_at_start = first;
        if !dropped {
            if !first {
                out.push(10);
            }
            let ghost out_before = out@;
            let mut k = pos;
            while k < end
                invariant
                    s == original@,
                    n == s.len(),
                    pos <= k <= end <= n,
                    out@ == out_before + s.subrange(pos as int, k as int),
                decreases end - k,
            {
                out.push(original[k]);
                proof {
                    assert(out@ =~= out_before + s.subrange(pos as int, k + 1 as int));
                }
                k = k + 1;
            }
            proof {
                assert(out@ =~= out_before + line);
            }
            first = false;
        }
        pos = if j < n {
            j + 1
        } else {
            n
        };
        proof {
            if j >= n {
                assert(s.skip(pos as int) =~= Seq::<u8>::empty());
                assert(split_lines(s.skip(pos as int)) =~= rest);
            }
            if !dropped {
                if first_at_start {
                    assert(out@ =~= out_at_start + line);
                } else {
                    assert(out@ =~= out_at_start + (seq![10u8] + line));
                }
            }
            assert(out@ + join_kept(split_lines(s.skip(pos as int)), first) =~= out_at_start
                + join_kept(seq![line] + rest, first_at_start));
        }
    }
    proof {
        assert(s.skip(n as int) =~= Seq::<u8>::empty());
        assert(join_kept(split_lines(s), true) == out@);
    }
    let mut size_tag = vstd::slice::slice_to_vec("\nXcursor.size: ".as_bytes());
    out.append(&mut size_tag);
    push_decimal(&mut out, size);
    let mut theme_tag = vstd::slice::slice_to_vec("\nXcursor.theme: ".as_bytes());
    out.append(&mut theme_tag);
    let mut theme_bytes = vstd::slice::slice_to_vec(theme.as_bytes());
    out.append(&mut theme_bytes);
    out.push(10);
    proof {
        assert(out@ =~= built_resource_string(s, size, theme.spec_bytes()));
    }
    out
}

/// x11rb's parsed X resource database, opaque to the verifier; its entries
/// are reached only through [`db_lookup`] and the queries specified by it.
#[verifier::external_type_specification]
#[verifier::external_body]
pub struct ExDatabase(x11rb::resource_manager::Database);

/// The entry that the parsed resource database `db` yields for a query with
/// the given resource name and class, as `Database::get_string` returns it:
/// a pure lookup over the database's entries.
pub uninterp spec fn db_lookup(
    db: x11rb::resource_manager::Database,
    name: Seq<char>,
    class: Seq<char>,
) -> Option<Seq<char>>;

/// Relies on x11rb's `Database::get_string`: a query against the entries of
/// an already-parsed resource database, deterministic in the database value
/// and the query strings.
#[verifier::external_body]
fn db_get_string(db: &x11rb::resource_manager::Database, name: &str, class: &str) -> (r: Option<
    String,
>)
    ensures
        match r {
            Some(v) => db_lookup(*db, name@, class@) == Some(v@),
            None => db_lookup(*db, name@, class@) is None,
        },
{
    db.get_string(name, class).map(str::to_owned)
}

/// `c` is a decimal digit.
pub open spec fn is_digit(c: char) -> bool {
    48 <= c as u32 <= 57
}

/// The value of the digit `c`.
pub open spec fn digit_val(c: char) -> int {
    c as u32 - 48
}

/// The value of a string of decimal digits, most significant first.
pub open spec fn dec_value(ds: Seq<char>) -> int
    decreases ds.len(),
{
    if ds.len() == 0 {
        0
    } else {
        dec_value(ds.drop_last()) * 10 + digit_val(ds.last())
    }
}

/// The digits of a decimal string once an optional leading plus sign is
/// removed.
pub open spec fn digits_of(s: Seq<char>) -> Seq<char> {
    if s.len() >= 1 && s[0] == '+' {
        s.drop_first()
    } else {
        s
    }
}

/// What `str::parse::<u32>` accepts: an optional plus sign, then at least
/// one decimal digit, with a value that fits in a `u32`.
pub open spec fn parse_u32_spec(s: Seq<char>) -> Option<u32> {
    let ds = digits_of(s);
    if ds.len() > 0 && (forall|i: int| 0 <= i < ds.len() ==> is_digit(ds[i])) && dec_value(ds)
        <= u32::MAX {
        Some(dec_value(ds) as u32)
    } else {
        None
    }
}

proof fn lemma_dec_value_nonneg(ds: Seq<char>)
    requires
        forall|k: int| 0 <= k < ds.len() ==> is_digit(ds[k]),
    ensures
        dec_value(ds) >= 0,
    decreases ds.len(),
{
    if ds.len() > 0 {
        assert(forall|k: int|
            0 <= k < ds.drop_last().len() ==> ds.drop_last()[k] == ds[k]);
        lemma_dec_value_nonneg(ds.drop_last());
    }
}

proof fn lemma_dec_value_prefix_le(ds: Seq<char>, i: int)
    requires
        0 <= i <= ds.len(),
        forall|k: int| 0 <= k < ds.len() ==> is_digit(ds[k]),
    ensures
        dec_value(ds.take(i)) <= dec_value(ds),
    decreases ds.len() - i,
{
    if i == ds.len() {
        assert(ds.take(i) =~= ds);
    } else {
        lemma_dec_value_prefix_le(ds, i + 1);
        let t = ds.take(i + 1);
        assert(t.drop_last() =~= ds.take(i));
        assert(t.last() == ds[i]);
        assert(forall|k: int| 0 <= k < ds.take(i).len() ==> ds.take(i)[k] == ds[k]);
        lemma_dec_value_nonneg(ds.take(i));
    }
}

/// Parse a decimal `u32` exactly as `str::parse::<u32>` does: an optional
/// leading plus sign, then at least one digit, rejecting any other
/// character and any value that does not fit.
pub fn parse_u32(s: &str) -> (r: Option<u32>)
    ensures
        r == parse_u32_spec(s@),
{
    let len = s.unicode_len();
    let mut start: usize = 0;
    if len > 0 && s.get_char(0) == '+' {
        start = 1;
    }
    let ghost ds = digits_of(s@);
    proof {
        if start == 1 {
            assert(forall|k: int| 0 <= k < ds.len() ==> ds[k] == s@[k + 1]);
        }
    }
    if start >= len {
        return None;
    }
    let mut acc: u64 = 0;
    let mut i = start;
    proof {
        assert(ds.take(0) =~= Seq::<char>::empty());
    }
    while i < len
        invariant
            len == s@.len(),
            start <= i <= len,
            start <= 1,
            ds == digits_of(s@),
            ds.len() == len - start,
            forall|k: int| 0 <= k < ds.len() ==> ds[k] == s@[k + start],
            forall|k: int| 0 <= k < i - start ==> is_digit(ds[k]),
            acc == dec_value(ds.take(i - start)),
            acc <= u32::MAX,
        decreases len - i,
    {
        let c = s.get_char(i);
        let cv = c as u32;
        if cv < 48 || cv > 57 {
            proof {
                assert(ds[i - start] == s@[i as int]);
                assert(!is_digit(ds[i - start]));
            }
            return None;
        }
        acc = acc * 10 + (cv - 48) as u64;
        proof {
            let t = ds.take(i + 1 - start);
            assert(t.drop_last() =~= ds.take(i - start));
            assert(t.last() == ds[i - start]);
        }
        if acc > 0xffffffff {
            proof {
                if forall|k: int| 0 <= k < ds.len() ==> is_digit(ds[k]) {
                    lemma_dec_value_prefix_le(ds, i + 1 - start);
                }
            }
            return None;
        }
        i = i + 1;
    }
    proof {
        assert(ds.take(ds.len() as int) =~= ds);
    }
    Some(acc as u32)
}

/// The original cursor size recorded in the resource database: the value of
/// the `Xcursor.size` entry when it parses as a `u32`, and 24 otherwise.
pub open spec fn cursor_size_of(db: x11rb::resource_manager::Database) -> u32 {
    match db_lookup(db, "Xcursor.size"@, "Xcursor.Size"@) {
        Some(v) => match parse_u32_spec(v) {
            Some(n) => n,
            None => 24u32,
        },
        None => 24u32,
    }
}

/// The cursor theme named in the resource database, or "default" when the
/// entry is absent or empty.
pub open spec fn cursor_theme_of(db: x11rb::resource_manager::Database) -> Seq<char> {
    match db_lookup(db, "Xcursor.theme"@, "Xcursor.Theme"@) {
        Some(v) => if v.len() > 0 {
            v
        } else {
            "default"@
        },
        None => "default"@,
    }
}

/// Read the user's original cursor size and theme out of a parsed resource
/// database, falling back to a 24 px cursor in the default theme, as the
/// session setup does before the first resize request.
pub fn discover_cursor_settings(db: &x11rb::resource_manager::Database) -> (r: (u32, String))
    ensures
        r.0 == cursor_size_of(*db),
        r.1@ == cursor_theme_of(*db),
{
    let size: u32 = match db_get_string(db, "Xcursor.size", "Xcursor.Size") {
        Some(v) => match parse_u32(v.as_str()) {
            Some(n) => n,
            None => 24,
        },
        None => 24,
    };
    let theme: String = match db_get_string(db, "Xcursor.theme", "Xcursor.Theme") {
        Some(v) => if v.as_str().is_empty() {
            "default".to_owned()
        } else {
            v
        },
        None => "default".to_owned(),
    };
    (size, theme)
}

} // verus!
