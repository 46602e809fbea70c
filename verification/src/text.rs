use vstd::prelude::*;

verus! {

/// ASCII whitespace: the separators between fields of a decoder line.
pub open spec fn is_ws(b: u8) -> bool {
    b == 32 || b == 9 || b == 10 || b == 13
}

pub open spec fn is_digit(b: u8) -> bool {
    48 <= b <= 57
}

pub open spec fn all_digits(s: Seq<u8>) -> bool {
    forall|i: int| 0 <= i < s.len() ==> is_digit(#[trigger] s[i])
}

/// The value of a string of decimal digits, most significant first.
pub open spec fn dec_val(s: Seq<u8>) -> int
    decreases s.len(),
{
    if s.len() == 0 {
        0
    } else {
        dec_val(s.drop_last()) * 10 + (s.last() - 48)
    }
}

/// A field that denotes a decimal number no greater than `max`.
pub open spec fn valid_dec(s: Seq<u8>, max: int) -> bool {
    s.len() > 0 && all_digits(s) && dec_val(s) <= max
}

/// The views of a vector of byte vectors.
pub open spec fn views_of(fs: Seq<Vec<u8>>) -> Seq<Seq<u8>> {
    fs.map_values(|f: Vec<u8>| f@)
}

/// Tokenization state after reading a prefix of `s`: `cur` is the token
/// being read, `acc` the tokens already complete.
pub open spec fn fields_from(s: Seq<u8>, i: int, cur: Seq<u8>, acc: Seq<Seq<u8>>) -> Seq<Seq<u8>>
    decreases s.len() - i,
{
    if i < 0 || i >= s.len() {
        if cur.len() > 0 {
            acc.push(cur)
        } else {
            acc
        }
    } else if is_ws(s[i]) {
        if cur.len() > 0 {
            fields_from(s, i + 1, Seq::empty(), acc.push(cur))
        } else {
            fields_from(s, i + 1, cur, acc)
        }
    } else {
        fields_from(s, i + 1, cur.push(s[i]), acc)
    }
}

/// The whitespace-separated fields of a line, in order.
pub open spec fn spec_fields(s: Seq<u8>) -> Seq<Seq<u8>> {
    fields_from(s, 0, Seq::empty(), Seq::empty())
}

/// The index of the first `.` in `s` at or after `i`, or `s.len()` if
/// there is none.
pub open spec fn first_dot(s: Seq<u8>, i: int) -> int
    decreases s.len() - i,
{
    if i < 0 || i >= s.len() {
        s.len() as int
    } else if s[i] == 46 {
        i
    } else {
        first_dot(s, i + 1)
    }
}

/// The first nine fractional digits read as nanoseconds, shorter strings
/// padded with zeros, digits beyond the ninth truncated.
pub open spec fn frac_nanos_from(f: Seq<u8>, j: int, acc: int) -> int
    decreases 9 - j,
{
    if j < 0 || j >= 9 {
        acc
    } else {
        frac_nanos_from(
            f,
            j + 1,
            acc * 10 + (if j < f.len() {
                f[j] - 48
            } else {
                0
            }),
        )
    }
}

pub open spec fn frac_nanos(f: Seq<u8>) -> int {
    frac_nanos_from(f, 0, 0)
}

/// The timestamp a field denotes, in nanoseconds: decimal digits, an
/// optional point, fractional digits; at least one digit in all; at most
/// nanosecond precision is kept. `None` when the field reads otherwise or
/// the value does not fit a 64-bit count of nanoseconds.
pub open spec fn spec_time_val(s: Seq<u8>) -> Option<int> {
    let d = first_dot(s, 0);
    let ip = s.take(d);
    let fp = if d == s.len() {
        Seq::<u8>::empty()
    } else {
        s.skip(d + 1)
    };
    if all_digits(ip) && all_digits(fp) && ip.len() + fp.len() > 0 && dec_val(ip) * 1_000_000_000
        + frac_nanos(fp) <= u64::MAX {
        Some(dec_val(ip) * 1_000_000_000 + frac_nanos(fp))
    } else {
        None
    }
}

pub proof fn lemma_dec_val_nonneg(s: Seq<u8>)
    requires
        all_digits(s),
    ensures
        dec_val(s) >= 0,
    decreases s.len(),
{
    if s.len() > 0 {
        assert(all_digits(s.drop_last()));
        lemma_dec_val_nonneg(s.drop_last());
    }
}

/// Extending a digit string on the right appends one low-order digit.
pub proof fn lemma_dec_val_take_succ(s: Seq<u8>, i: int)
    requires
        0 <= i < s.len(),
    ensures
        dec_val(s.take(i + 1)) == dec_val(s.take(i)) * 10 + (s[i] - 48),
{
    assert(s.take(i + 1).drop_last() =~= s.take(i));
    assert(s.take(i + 1).last() == s[i]);
}

/// The value of a prefix of a digit string never exceeds the whole.
pub proof fn lemma_dec_val_prefix_le(s: Seq<u8>, i: int)
    requires
        all_digits(s),
        0 <= i <= s.len(),
    ensures
        dec_val(s.take(i)) <= dec_val(s),
    decreases s.len() - i,
{
    if i == s.len() {
        assert(s.take(i) =~= s);
    } else {
        lemma_dec_val_take_succ(s, i);
        assert(all_digits(s.take(i)));
        lemma_dec_val_nonneg(s.take(i));
        lemma_dec_val_prefix_le(s, i + 1);
    }
}

pub proof fn lemma_frac_nanos_lower(f: Seq<u8>, j: int, acc: int)
    requires
        0 <= acc,
        all_digits(f),
    ensures
        frac_nanos_from(f, j, acc) >= acc,
    decreases 9 - j,
{
    if !(j < 0 || j >= 9) {
        let d = if j < f.len() {
            f[j] - 48
        } else {
            0
        };
        lemma_frac_nanos_lower(f, j + 1, acc * 10 + d);
    }
}

/// Split a line into its whitespace-separated fields.
pub fn split_fields(line: &[u8]) -> (fields: Vec<Vec<u8>>)
    ensures
        views_of(fields@) == spec_fields(line@),
{
    let mut fields: Vec<Vec<u8>> = Vec::new();
    let mut cur: Vec<u8> = Vec::new();
    let mut i: usize = 0;
    proof {
        assert(views_of(fields@) =~= Seq::<Seq<u8>>::empty());
        assert(cur@ =~= Seq::<u8>::empty());
    }
    while i < line.len()
        invariant
            i <= line.len(),
            spec_fields(line@) == fields_from(line@, i as int, cur@, views_of(fields@)),
        decreases line.len() - i,
    {
        let b = line[i];
        if b == 32 || b == 9 || b == 10 || b == 13 {
            if cur.len() > 0 {
                let ghost old_fields = fields@;
                let ghost cur_view = cur@;
                fields.push(cur);
                cur = Vec::new();
                proof {
                    assert(views_of(fields@) =~= views_of(old_fields).push(cur_view));
                    assert(cur@ =~= Seq::<u8>::empty());
                }
            }
        } else {
            cur.push(b);
        }
        i += 1;
    }
    if cur.len() > 0 {
        let ghost old_fields = fields@;
        let ghost cur_view = cur@;
        fields.push(cur);
        proof {
            assert(views_of(fields@) =~= views_of(old_fields).push(cur_view));
        }
    }
    fields
}

/// Parse a field as an unsigned decimal number.
pub fn parse_u64(s: &[u8]) -> (r: Option<u64>)
    ensures
        r is Some <==> valid_dec(s@, u64::MAX as int),
        r matches Some(v) ==> v == dec_val(s@),
{
    let mut v: u64 = 0;
    let mut i: usize = 0;
    proof {
        assert(s@.take(0) =~= Seq::<u8>::empty());
    }
    while i < s.len()
        invariant
            i <= s.len(),
            all_digits(s@.take(i as int)),
            v == dec_val(s@.take(i as int)),
        decreases s.len() - i,
    {
        let b = s[i];
        if b < 48 || b > 57 {
            assert(!is_digit(s@[i as int]));
            return None;
        }
        let d: u64 = (b - 48) as u64;
        if v > (u64::MAX - d) / 10 {
            proof {
                assert(v * 10 + d > u64::MAX) by (nonlinear_arith)
                    requires
                        v > (u64::MAX - d) / 10,
                        d <= 9,
                ;
                lemma_dec_val_take_succ(s@, i as int);
                if all_digits(s@) {
                    lemma_dec_val_prefix_le(s@, i as int + 1);
                }
            }
            return None;
        }
        proof {
            assert(v * 10 + d <= u64::MAX) by (nonlinear_arith)
                requires
                    v <= (u64::MAX - d) / 10,
                    d <= 9,
            ;
            lemma_dec_val_take_succ(s@, i as int);
        }
        v = v * 10 + d;
        i += 1;
    }
    proof {
        assert(s@.take(s@.len() as int) =~= s@);
    }
    if i == 0 {
        None
    } else {
        Some(v)
    }
}

/// Parse a field as a decimal number that must fit in 32 bits.
pub fn parse_u32(s: &[u8]) -> (r: Option<u32>)
    ensures
        r is Some <==> valid_dec(s@, u32::MAX as int),
        r matches Some(v) ==> v == dec_val(s@),
{
    match parse_u64(s) {
        Some(v) => if v <= u32::MAX as u64 {
            Some(v as u32)
        } else {
            None
        },
        None => None,
    }
}

/// Parse a field as a decimal number that must fit in 16 bits.
pub fn parse_u16(s: &[u8]) -> (r: Option<u16>)
    ensures
        r is Some <==> valid_dec(s@, u16::MAX as int),
        r matches Some(v) ==> v == dec_val(s@),
{
    match parse_u64(s) {
        Some(v) => if v <= u16::MAX as u64 {
            Some(v as u16)
        } else {
            None
        },
        None => None,
    }
}

/// The decimal digits of `m`, most significant first; empty for zero.
pub open spec fn digits_of(m: int) -> Seq<u8>
    decreases m,
{
    if m <= 0 {
        Seq::empty()
    } else {
        digits_of(m / 10).push((m % 10 + 48) as u8)
    }
}

proof fn lemma_digits_of_spec(m: int)
    requires
        m >= 0,
    ensures
        all_digits(digits_of(m)),
        dec_val(digits_of(m)) == m,
        m > 0 ==> digits_of(m).len() >= 1,
    decreases m,
{
    if m > 0 {
        lemma_digits_of_spec(m / 10);
        let s = digits_of(m);
        assert(s.drop_last() =~= digits_of(m / 10));
        assert forall|i: int| 0 <= i < s.len() implies is_digit(#[trigger] s[i]) by {
            if i < s.len() - 1 {
                assert(s[i] == digits_of(m / 10)[i]);
            }
        }
    }
}

proof fn lemma_first_dot_from(s: Seq<u8>, i: int, k: int)
    requires
        0 <= i <= k < s.len(),
        s[k] == 46,
        forall|j: int| 0 <= j < k ==> s[j] != 46,
    ensures
        first_dot(s, i) == k,
    decreases k - i,
{
    if i < k {
        lemma_first_dot_from(s, i + 1, k);
    }
}

fn push_digits(m: u64, out: &mut Vec<u8>)
    ensures
        final(out)@ == old(out)@ + digits_of(m as int),
    decreases m,
{
    if m == 0 {
        proof {
            assert(out@ + digits_of(0) =~= out@);
        }
        return;
    }
    push_digits(m / 10, out);
    out.push((m % 10) as u8 + 48);
    proof {
        assert(out@ =~= old(out)@ + digits_of(m as int));
    }
}

/// Render a nanosecond timestamp as decimal seconds with nine
/// fractional digits, exactly the form the record parser reads: the
/// parser's own specification recovers the value from the text.
pub fn format_time_nanos(n: u64) -> (r: Vec<u8>)
    ensures
        spec_time_val(r@) == Some(n as int),
{
    let secs: u64 = n / 1_000_000_000;
    let frac: u64 = n % 1_000_000_000;

    let mut out: Vec<u8> = Vec::new();
    if secs == 0 {
        out.push(48);
        proof {
            assert(out@ =~= seq![48u8]);
        }
    } else {
        push_digits(secs, &mut out);
        proof {
            assert(out@ =~= digits_of(secs as int));
        }
    }
    let ghost ip = out@;
    proof {
        lemma_digits_of_spec(secs as int);
        if secs == 0 {
            assert(ip.drop_last() =~= Seq::<u8>::empty());
            assert(dec_val(ip) == 0);
        }
        assert(all_digits(ip));
        assert(dec_val(ip) == secs as int);
        assert(ip.len() >= 1);
    }
    let dot_at: usize = out.len();
    out.push(46);

    // The nine fractional digits, most significant first.
    let r8: u64 = frac / 10;
    let g8: u64 = frac % 10;
    let r7: u64 = r8 / 10;
    let g7: u64 = r8 % 10;
    let r6: u64 = r7 / 10;
    let g6: u64 = r7 % 10;
    let r5: u64 = r6 / 10;
    let g5: u64 = r6 % 10;
    let r4: u64 = r5 / 10;
    let g4: u64 = r5 % 10;
    let r3: u64 = r4 / 10;
    let g3: u64 = r4 % 10;
    let r2: u64 = r3 / 10;
    let g2: u64 = r3 % 10;
    let r1: u64 = r2 / 10;
    let g1: u64 = r2 % 10;
    let g0: u64 = r1 % 10;
    proof {
        assert(r1 / 10 == 0);
    }
    out.push(g0 as u8 + 48);
    out.push(g1 as u8 + 48);
    out.push(g2 as u8 + 48);
    out.push(g3 as u8 + 48);
    out.push(g4 as u8 + 48);
    out.push(g5 as u8 + 48);
    out.push(g6 as u8 + 48);
    out.push(g7 as u8 + 48);
    out.push(g8 as u8 + 48);

    proof {
        let s = out@;
        let k = dot_at as int;
        assert(s.len() == k + 10);
        assert(s.take(k) =~= ip);
        assert forall|j: int| 0 <= j < k implies s[j] != 46 by {
            assert(is_digit(ip[j]));
        }
        lemma_first_dot_from(s, 0, k);
        let fp = s.skip(k + 1);
        assert(fp.len() == 9);
        assert(all_digits(fp));
        assert(frac_nanos(fp) == frac as int) by {
            reveal_with_fuel(frac_nanos_from, 11);
            assert(fp[0] == g0 as u8 + 48 && fp[1] == g1 as u8 + 48 && fp[2] == g2 as u8 + 48
                && fp[3] == g3 as u8 + 48 && fp[4] == g4 as u8 + 48 && fp[5] == g5 as u8 + 48
                && fp[6] == g6 as u8 + 48 && fp[7] == g7 as u8 + 48 && fp[8] == g8 as u8 + 48);
        }
        assert(dec_val(s.take(k)) * 1_000_000_000 + frac_nanos(fp) == n as int);
    }
    out
}

/// Parse a timestamp field to nanoseconds.
pub fn parse_time(s: &[u8]) -> (r: Option<u64>)
    ensures
        r is Some <==> spec_time_val(s@) is Some,
        r matches Some(v) ==> v == spec_time_val(s@)->Some_0,
{
    // Find the first point, if any.
    let mut i: usize = 0;
    while i < s.len() && s[i] != 46
        invariant
            i <= s.len(),
            first_dot(s@, 0) == first_dot(s@, i as int),
        decreases s.len() - i,
    {
        i += 1;
    }
    let dot: usize = i;
    proof {
        assert(dot == first_dot(s@, 0));
    }

    let ghost ip = s@.take(dot as int);
    let ghost fp = if dot == s.len() {
        Seq::<u8>::empty()
    } else {
        s@.skip(dot as int + 1)
    };

    // Integer seconds, capped so that the nanosecond total can still fit.
    let mut iv: u64 = 0;
    let mut k: usize = 0;
    proof {
        assert(ip.take(0) =~= Seq::<u8>::empty());
    }
    while k < dot
        invariant
            k <= dot,
            dot == first_dot(s@, 0),
            dot <= s@.len(),
            ip == s@.take(dot as int),
            fp == if dot == s@.len() {
                Seq::<u8>::empty()
            } else {
                s@.skip(dot as int + 1)
            },
            all_digits(ip.take(k as int)),
            iv == dec_val(ip.take(k as int)),
            iv <= 18_446_744_073,
        decreases dot - k,
    {
        let b = s[k];
        proof {
            assert(ip[k as int] == s@[k as int]);
        }
        if b < 48 || b > 57 {
            assert(!is_digit(ip[k as int]));
            return None;
        }
        let d: u64 = (b - 48) as u64;
        proof {
            lemma_dec_val_take_succ(ip, k as int);
        }
        if iv > 1_844_674_407 || (iv == 1_844_674_407 && d > 3) {
            // Already more seconds than 64-bit nanoseconds can hold.
            proof {
                assert(all_digits(ip.take(k as int + 1)));
                if all_digits(ip) && all_digits(fp) {
                    lemma_dec_val_prefix_le(ip, k as int + 1);
                    lemma_frac_nanos_lower(fp, 0, 0);
                }
            }
            return None;
        }
        iv = iv * 10 + d;
        k += 1;
    }
    proof {
        assert(ip.take(ip.len() as int) =~= ip);
    }

    // Fractional digits, every one checked, the first nine kept.
    let frac_start: usize = if dot < s.len() {
        dot + 1
    } else {
        s.len()
    };
    let frac_len: usize = s.len() - frac_start;
    proof {
        assert(fp.len() == frac_len);
        assert(forall|m: int| 0 <= m < fp.len() ==> fp[m] == s@[frac_start + m]);
    }
    if dot == 0 && frac_len == 0 {
        return None;
    }

    let mut j: usize = 0;
    while j < frac_len
        invariant
            j <= frac_len,
            frac_len == fp.len(),
            frac_start + frac_len == s@.len(),
            s@.len() <= usize::MAX,
            dot == first_dot(s@, 0),
            dot <= s@.len(),
            fp == if dot == s@.len() {
                Seq::<u8>::empty()
            } else {
                s@.skip(dot as int + 1)
            },
            forall|m: int| 0 <= m < fp.len() ==> fp[m] == s@[frac_start + m],
            all_digits(fp.take(j as int)),
        decreases frac_len - j,
    {
        let b = s[frac_start + j];
        if b < 48 || b > 57 {
            assert(!is_digit(fp[j as int]));
            return None;
        }
        proof {
            assert(fp.take(j as int + 1) =~= fp.take(j as int).push(fp[j as int]));
        }
        j += 1;
    }
    proof {
        assert(fp.take(fp.len() as int) =~= fp);
    }

    // Read the nanoseconds: nine digits, zero-padded on the right.
    let mut nf: u64 = 0;
    let mut m: usize = 0;
    while m < 9
        invariant
            m <= 9,
            frac_len == fp.len(),
            frac_start + frac_len == s@.len(),
            s@.len() <= usize::MAX,
            forall|t: int| 0 <= t < fp.len() ==> fp[t] == s@[frac_start + t],
            all_digits(fp),
            frac_nanos(fp) == frac_nanos_from(fp, m as int, nf as int),
            m >= 9 ==> nf <= 999_999_999,
            m < 9 ==> nf <= 99_999_999,
            m < 8 ==> nf <= 9_999_999,
            m < 7 ==> nf <= 999_999,
            m < 6 ==> nf <= 99_999,
            m < 5 ==> nf <= 9_999,
            m < 4 ==> nf <= 999,
            m < 3 ==> nf <= 99,
            m < 2 ==> nf <= 9,
            m < 1 ==> nf == 0,
        decreases 9 - m,
    {
        let d: u64 = if m < frac_len {
            let b = s[frac_start + m];
            proof {
                assert(fp[m as int] == s@[frac_start + m as int]);
                assert(is_digit(fp[m as int]));
            }
            (b - 48) as u64
        } else {
            0
        };
        nf = nf * 10 + d;
        m += 1;
    }

    // The exact 64-bit boundary for seconds plus nanoseconds.
    if iv > 18_446_744_073 || (iv == 18_446_744_073 && nf > 709_551_615) {
        return None;
    }
    Some(iv * 1_000_000_000 + nf)
}

} // verus!
