//! Building the query URL for the latest-assets catalog of prebuilt runtimes.
//! Fetching and decoding the answer is HTTP work and stays outside this
//! crate.

use vstd::prelude::*;

use crate::platform::Os;
use vstd::string::StringExecFns;

verus! {

/// The character for one decimal digit value.
pub open spec fn digit_char(d: nat) -> char {
    if d == 0 {
        '0'
    } else if d == 1 {
        '1'
    } else if d == 2 {
        '2'
    } else if d == 3 {
        '3'
    } else if d == 4 {
        '4'
    } else if d == 5 {
        '5'
    } else if d == 6 {
        '6'
    } else if d == 7 {
        '7'
    } else if d == 8 {
        '8'
    } else {
        '9'
    }
}

/// The decimal digits of `n`, most significant first, without leading zeros.
pub open spec fn decimal_digits(n: nat) -> Seq<char>
    decreases n,
{
    if n < 10 {
        seq![digit_char(n)]
    } else {
        decimal_digits(n / 10).push(digit_char(n % 10))
    }
}

fn digit_str(d: u8) -> (r: &'static str)
    requires
        d < 10,
    ensures
        r@ == seq![digit_char(d as nat)],
{
    proof {
        reveal_strlit("0");
        reveal_strlit("1");
        reveal_strlit("2");
        reveal_strlit("3");
        reveal_strlit("4");
        reveal_strlit("5");
        reveal_strlit("6");
        reveal_strlit("7");
        reveal_strlit("8");
        reveal_strlit("9");
    }
    let r: &'static str = match d {
        0 => "0",
        1 => "1",
        2 => "2",
        3 => "3",
        4 => "4",
        5 => "5",
        6 => "6",
        7 => "7",
        8 => "8",
        _ => "9",
    };
    proof {
        assert(r@ =~= seq![digit_char(d as nat)]);
    }
    r
}

fn push_decimal_u8(s: &mut String, n: u8)
    ensures
        final(s)@ == old(s)@ + decimal_digits(n as nat),
{
    let ghost base = s@;
    if n >= 100 {
        s.append(digit_str(n / 100));
    }
    if n >= 10 {
        s.append(digit_str((n / 10) % 10));
    }
    s.append(digit_str(n % 10));
    proof {
        if n < 10 {
            assert(s@ =~= base + decimal_digits(n as nat));
        } else if n < 100 {
            assert(decimal_digits(n as nat) == decimal_digits(n as nat / 10).push(
                digit_char(n as nat % 10),
            ));
            assert(n as nat / 10 < 10);
            assert((n / 10) % 10 == n / 10);
            assert(s@ =~= base + decimal_digits(n as nat));
        } else {
            assert(decimal_digits(n as nat) == decimal_digits(n as nat / 10).push(
                digit_char(n as nat % 10),
            ));
            assert(n as nat / 10 >= 10);
            assert(decimal_digits(n as nat / 10) == decimal_digits((n as nat / 10) / 10).push(
                digit_char((n as nat / 10) % 10),
            ));
            assert((n as nat / 10) / 10 == n as nat / 100);
            assert(n as nat / 100 < 10);
            assert((n / 10) % 10 == (n as nat / 10) % 10);
            assert(n / 100 == n as nat / 100);
            assert(s@ =~= base + decimal_digits(n as nat));
        }
    }
}

/// The catalog name of the platform in asset queries.
pub open spec fn os_name(os: Os) -> Seq<char> {
    match os {
        Os::Linux => "linux"@,
        Os::Windows => "windows"@,
        Os::MacOs => "mac"@,
    }
}

/// The query URL for the latest prebuilt runtime assets of the given major
/// version on the given platform.
pub fn open_jdk_url(os: Os, major: u8) -> (r: String)
    ensures
        r@ == "https://api.adoptopenjdk.net/v2/latestAssets/nightly/openjdk"@ + decimal_digits(
            major as nat,
        ) + "?os="@ + os_name(os) + "&arch=x64&heap_size=normal&openjdk_impl=hotspot&type=jre"@,
{
    let mut s = "https://api.adoptopenjdk.net/v2/latestAssets/nightly/openjdk".to_owned();
    push_decimal_u8(&mut s, major);
    s.append("?os=");
    match os {
        Os::Linux => s.append("linux"),
        Os::Windows => s.append("windows"),
        Os::MacOs => s.append("mac"),
    }
    s.append("&arch=x64&heap_size=normal&openjdk_impl=hotspot&type=jre");
    proof {
        assert(s@ =~= "https://api.adoptopenjdk.net/v2/latestAssets/nightly/openjdk"@
            + decimal_digits(major as nat) + "?os="@ + os_name(os)
            + "&arch=x64&heap_size=normal&openjdk_impl=hotspot&type=jre"@);
    }
    s
}

} // verus!
