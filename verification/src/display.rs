//! Text and numbers that the lock screen shows.
use vstd::prelude::*;
use crate::util::{chars_of, string_from_chars, push_decimal, decimal_text};

verus! {

/// How often the uptime text is refreshed, in seconds.
pub const UPTIME_REFRESH_SECS: u64 = 10;

/// The uptime text: `up`, the whole hours, `h`, the remaining whole minutes, `m`.
pub open spec fn spec_uptime_label(secs: u64) -> Seq<char> {
    "up "@ + decimal_text((secs / 3600) as nat) + "h "@ + decimal_text(((secs % 3600) / 60) as nat)
        + "m"@
}

/// The uptime text for `secs` seconds, such as `up 2h 5m`.
pub fn uptime_label(secs: u64) -> (label: String)
    ensures
        label@ == spec_uptime_label(secs),
{
    proof {
        reveal_strlit("up ");
        reveal_strlit("h ");
        reveal_strlit("m");
    }
    let mut out: Vec<char> = Vec::new();
    out.push('u');
    out.push('p');
    out.push(' ');
    push_decimal(&mut out, secs / 3600);
    out.push('h');
    out.push(' ');
    push_decimal(&mut out, (secs % 3600) / 60);
    out.push('m');
    assert(out@ =~= spec_uptime_label(secs));
    string_from_chars(&out)
}

/// Whether the uptime text is due for a refresh, given the seconds since the
/// last refresh (none yet: it is due).
pub fn uptime_refresh_due(secs_since_last: Option<u64>) -> (due: bool)
    ensures
        due == match secs_since_last {
            Some(s) => s >= UPTIME_REFRESH_SECS,
            None => true,
        },
{
    match secs_since_last {
        Some(s) => s >= UPTIME_REFRESH_SECS,
        None => true,
    }
}

/// The multiplier of the generator that turns a seed into a highlight angle.
pub const HIGHLIGHT_MULTIPLIER: u64 = 6364136223846793005;

/// The highlight angle in whole degrees for `seed`: one step of a 64-bit
/// linear congruential generator, modulo 360.
pub open spec fn spec_highlight_degrees(seed: u64) -> int {
    (((seed as int * HIGHLIGHT_MULTIPLIER as int) % 0x1_0000_0000_0000_0000 + 1)
        % 0x1_0000_0000_0000_0000) % 360
}

/// The highlight angle in whole degrees for `seed`.
pub fn highlight_degrees(seed: u64) -> (degrees: u64)
    ensures
        degrees == spec_highlight_degrees(seed),
        degrees < 360,
{
    let random_val = seed.wrapping_mul(HIGHLIGHT_MULTIPLIER).wrapping_add(1);
    random_val % 360
}

/// The media text: `artist - title`, or the title alone without an artist.
pub open spec fn spec_media_label(artist: Option<Seq<char>>, title: Seq<char>) -> Seq<char> {
    match artist {
        Some(a) => a + " - "@ + title,
        None => title,
    }
}

/// The media text: `artist - title`, or the title alone without an artist.
pub fn media_label(artist: Option<&str>, title: &str) -> (label: String)
    ensures
        label@ == spec_media_label(
            match artist {
                Some(a) => Some(a@),
                None => None,
            },
            title@,
        ),
{
    proof {
        reveal_strlit(" - ");
    }
    let mut out: Vec<char> = Vec::new();
    match artist {
        Some(a) => {
            let av = chars_of(a);
            let mut i: usize = 0;
            while i < av.len()
                invariant
                    i <= av.len(),
                    out@ == av@.take(i as int),
                decreases av.len() - i,
            {
                out.push(av[i]);
                proof {
                    assert(av@.take(i + 1) =~= av@.take(i as int).push(av@[i as int]));
                }
                i = i + 1;
            }
            assert(av@.take(av.len() as int) =~= av@);
            out.push(' ');
            out.push('-');
            out.push(' ');
        },
        None => {},
    }
    let ghost head = out@;
    let tv = chars_of(title);
    let mut j: usize = 0;
    while j < tv.len()
        invariant
            j <= tv.len(),
            out@ == head + tv@.take(j as int),
        decreases tv.len() - j,
    {
        out.push(tv[j]);
        proof {
            assert(tv@.take(j + 1) =~= tv@.take(j as int).push(tv@[j as int]));
        }
        j = j + 1;
    }
    assert(tv@.take(tv.len() as int) =~= tv@);
    assert(out@ =~= spec_media_label(
        match artist {
            Some(a) => Some(a@),
            None => None,
        },
        title@,
    ));
    string_from_chars(&out)
}

} // verus!
