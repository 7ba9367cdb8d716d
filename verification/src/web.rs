//! What the HTTP client decides by itself: the name it gives itself, the
//! host a URL names, and the file its disk cache keeps an answer in.

use vstd::prelude::*;
use crate::text;
use vstd::string::StringSliceAdditionalSpecFns;

verus! {

/// The user agent every request carries: the application and where it
/// lives.
pub const USER_AGENT: &'static str = "bap-store/0.1.0 (+https://github.com/Spillebulle/BAP-Store)";

/// The first place `pat` occurs in `s`.
pub open spec fn find_seq(s: Seq<char>, pat: Seq<char>) -> Option<int> {
    crate::appstream::first_where(s.len(), |i: int| text::occurs_at(s, pat, i))
}

/// The host a URL names: what follows the scheme, up to the next scheme
/// separator and then up to the first `/`; the whole text when it has no
/// scheme.
pub open spec fn host_spec(url: Seq<char>) -> Seq<char> {
    match find_seq(url, "://"@) {
        None => url,
        Some(i) => {
            let rest = url.skip(i + 3);
            let seg = match find_seq(rest, "://"@) {
                Some(j) => rest.take(j),
                None => rest,
            };
            match text::find(seg, '/') {
                Some(k) => seg.take(k),
                None => seg,
            }
        },
    }
}

fn find_str(s: &[char], pat: &str) -> (r: Option<usize>)
    ensures
        match r {
            Some(i) => find_seq(s@, pat@) == Some(i as int) && i + pat@.len() <= s@.len(),
            None => find_seq(s@, pat@) is None,
        },
{
    let p = text::chars(pat);
    let ghost f = |i: int| text::occurs_at(s@, pat@, i);
    let mut i: usize = 0;
    while i < s.len()
        invariant
            i <= s@.len(),
            p@ == pat@,
            f == (|i: int| text::occurs_at(s@, pat@, i)),
            forall|j: int| 0 <= j < i ==> !#[trigger] f(j),
        decreases s@.len() - i,
    {
        if p.len() <= s.len() - i {
            let piece = text::slice_chars(s, i, i + p.len());
            if text::eq(piece.as_slice(), p.as_slice()) {
                proof {
                    assert(piece@ =~= s@.subrange(i as int, i + pat@.len()));
                    assert(f(i as int));
                    crate::appstream::lemma_first_where(s@.len(), f);
                }
                return Some(i);
            }
            assert(!f(i as int)) by {
                assert(piece@ =~= s@.subrange(i as int, i + pat@.len()));
            }
        } else {
            assert(!f(i as int));
        }
        i = i + 1;
    }
    proof {
        crate::appstream::lemma_first_where(s@.len(), f);
    }
    None
}

/// The host a URL names.
pub fn host(url: &str) -> (r: String)
    ensures
        r@ == host_spec(url@),
{
    let u = text::chars(url);
    proof {
        reveal_strlit("://");
    }
    let found = find_str(u.as_slice(), "://");
    match found {
        None => text::string_from(url),
        Some(i) => {
            assert("://"@.len() == 3);
            assert(i + "://"@.len() <= u@.len());
            assert(i + 3 <= u.len());
            let rest = text::slice_chars(u.as_slice(), i + 3, u.len());
            assert(rest@ =~= url@.skip(i + 3));
            let seg = match find_str(rest.as_slice(), "://") {
                Some(j) => {
                    let t = text::slice_chars(rest.as_slice(), 0, j);
                    assert(t@ =~= rest@.take(j as int));
                    t
                },
                None => rest,
            };
            match text::find_char(seg.as_slice(), '/') {
                Some(k) => {
                    proof {
                        text::lemma_find(seg@, '/');
                    }
                    let t = text::slice_chars(seg.as_slice(), 0, k);
                    assert(t@ =~= seg@.take(k as int));
                    text::string_of(t.as_slice())
                },
                None => text::string_of(seg.as_slice()),
            }
        },
    }
}

/// FNV-1a over bytes, 64 bits.
pub open spec fn fnv(bytes: Seq<u8>) -> u64
    decreases bytes.len(),
{
    if bytes.len() == 0 {
        0xcbf2_9ce4_8422_2325u64
    } else {
        vstd::wrapping::u64_specs::wrapping_mul(fnv(bytes.drop_last()) ^ (bytes.last() as u64), 0x0100_0000_01b3u64)
    }
}

pub open spec fn hex_digit(d: u64) -> char {
    if d == 0 {
        '0'
    } else if d == 1 {
        '1'
    } else if d == 2 {
        '2'
    } else if d == 3 {
        '3'
    } else if d == 4 {
        '4'
    } else if d == 5 {
        '5'
    } else if d == 6 {
        '6'
    } else if d == 7 {
        '7'
    } else if d == 8 {
        '8'
    } else if d == 9 {
        '9'
    } else if d == 10 {
        'a'
    } else if d == 11 {
        'b'
    } else if d == 12 {
        'c'
    } else if d == 13 {
        'd'
    } else if d == 14 {
        'e'
    } else {
        'f'
    }
}

/// Sixteen lower-case hexadecimal digits, the most significant first.
pub open spec fn hex16(h: u64) -> Seq<char> {
    Seq::new(16, |k: int| hex_digit((h >> ((60 - 4 * k) as u64)) & 0xf))
}

/// A file name for the text in `s` with `/` and `:` made `_`.
pub open spec fn underscored(s: Seq<char>) -> Seq<char> {
    s.map_values(|c: char| if c == '/' || c == ':' {
        '_'
    } else {
        c
    })
}

/// The file the disk cache keeps a URL's answer in: its host, then a hash
/// of the whole URL, so the name is stable and readable.
pub open spec fn cache_name_spec(url: &str) -> Seq<char> {
    underscored(host_spec(url@)) + "-"@ + hex16(fnv(url.spec_bytes())) + ".json"@
}

fn hex_char(d: u64) -> (c: char)
    requires
        d < 16,
    ensures
        c == hex_digit(d),
{
    if d == 0 {
        '0'
    } else if d == 1 {
        '1'
    } else if d == 2 {
        '2'
    } else if d == 3 {
        '3'
    } else if d == 4 {
        '4'
    } else if d == 5 {
        '5'
    } else if d == 6 {
        '6'
    } else if d == 7 {
        '7'
    } else if d == 8 {
        '8'
    } else if d == 9 {
        '9'
    } else if d == 10 {
        'a'
    } else if d == 11 {
        'b'
    } else if d == 12 {
        'c'
    } else if d == 13 {
        'd'
    } else if d == 14 {
        'e'
    } else {
        'f'
    }
}

pub fn cache_name(url: &str) -> (r: String)
    ensures
        r@ == cache_name_spec(url),
{
    let bytes = url.as_bytes();
    let mut h: u64 = 0xcbf2_9ce4_8422_2325;
    let mut i: usize = 0;
    while i < bytes.len()
        invariant
            i <= bytes@.len(),
            bytes@ == url.spec_bytes(),
            h == fnv(bytes@.take(i as int)),
        decreases bytes@.len() - i,
    {
        assert(bytes@.take(i + 1).drop_last() =~= bytes@.take(i as int));
        h = (h ^ (bytes[i] as u64)).wrapping_mul(0x0100_0000_01b3);
        i = i + 1;
    }
    assert(bytes@.take(bytes@.len() as int) =~= bytes@);
    let hc = text::chars(host(url).as_str());
    let mut out: Vec<char> = Vec::new();
    let mut k: usize = 0;
    while k < hc.len()
        invariant
            k <= hc@.len(),
            hc@ == host_spec(url@),
            out@ == underscored(hc@.take(k as int)),
        decreases hc@.len() - k,
    {
        let c = hc[k];
        out.push(if c == '/' || c == ':' {
            '_'
        } else {
            c
        });
        assert(out@ =~= underscored(hc@.take(k + 1)));
        k = k + 1;
    }
    assert(hc@.take(hc@.len() as int) =~= hc@);
    out.push('-');
    let ghost head = out@;
    let mut d: usize = 0;
    while d < 16
        invariant
            d <= 16,
            out@ == head + hex16(h).take(d as int),
        decreases 16 - d,
    {
        let shift: u64 = (60 - 4 * d) as u64;
        let nib: u64 = (h >> shift) & 0xf;
        assert(nib < 16) by (bit_vector)
            requires
                nib == (h >> shift) & 0xf,
        ;
        out.push(hex_char(nib));
        assert(out@ =~= head + hex16(h).take(d + 1));
        d = d + 1;
    }
    proof {
        reveal_strlit("-");
        reveal_strlit(".json");
    }
    let mut s = text::string_of(out.as_slice());
    text::push_str(&mut s, ".json");
    assert(s@ =~= underscored(host_spec(url@)) + "-"@ + hex16(fnv(url.spec_bytes())) + ".json"@);
    s
}

} // verus!
