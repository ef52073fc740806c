//! Serial ports: which device names are serial ports, the order the port
//! list is shown in, and the hint for a port that may not be opened.
use vstd::prelude::*;

use crate::sessions_sidebar::{insert_name, insert_name_exec, lemma_insert_name_sorted, strictly_sorted};
use crate::text::{contains, lower_seq, lowercase_string, push_str, starts_with, str_contains, str_eq, str_starts_with, views};

verus! {

/// The prefixes of serial device names under `/dev`.
pub open spec fn serial_prefix(name: Seq<char>) -> bool {
    ||| starts_with(name, "ttyUSB"@)
    ||| starts_with(name, "ttyACM"@)
    ||| starts_with(name, "ttyS"@)
    ||| starts_with(name, "ttyAMA"@)
    ||| starts_with(name, "ttyTHS"@)
    ||| starts_with(name, "ttyO"@)
    ||| starts_with(name, "ttyGS"@)
    ||| starts_with(name, "rfcomm"@)
    ||| starts_with(name, "cu."@)
    ||| starts_with(name, "tty."@)
}

/// Whether a name under `/dev` is a serial port: a Linux serial device,
/// `serial0`/`serial1`, or a macOS `cu.*`/`tty.*` device.
pub open spec fn serial_dev_name(name: Seq<char>) -> bool {
    serial_prefix(name) || name == "serial0"@ || name == "serial1"@
}

/// Whether the device `/dev/<name>` is listed as a serial port.
pub fn should_include_dev_name(name: &str) -> (r: bool)
    ensures
        r == serial_dev_name(name@),
{
    str_starts_with(name, "ttyUSB") || str_starts_with(name, "ttyACM") || str_starts_with(name, "ttyS")
        || str_starts_with(name, "ttyAMA") || str_starts_with(name, "ttyTHS") || str_starts_with(
        name,
        "ttyO",
    ) || str_starts_with(name, "ttyGS") || str_starts_with(name, "rfcomm") || str_starts_with(
        name,
        "cu.",
    ) || str_starts_with(name, "tty.") || str_eq(name, "serial0") || str_eq(name, "serial1")
}

/// The serial device families under `/dev`: every name that begins with a
/// Linux serial prefix (`ttyUSB`, `ttyACM`, `ttyS`, `ttyAMA`, `ttyTHS`,
/// `ttyO`, `ttyGS`, `rfcomm`) or a macOS one (`cu.`, `tty.`), whatever
/// follows it, and `serial0`/`serial1`, are serial ports; a name that
/// starts with none of `tty`, `rfcomm`, `cu.` and `serial` is not.
pub proof fn law_serial_device_families(suffix: Seq<char>, name: Seq<char>)
    ensures
        serial_dev_name("ttyUSB"@ + suffix),
        serial_dev_name("ttyACM"@ + suffix),
        serial_dev_name("ttyS"@ + suffix),
        serial_dev_name("ttyAMA"@ + suffix),
        serial_dev_name("ttyTHS"@ + suffix),
        serial_dev_name("ttyO"@ + suffix),
        serial_dev_name("ttyGS"@ + suffix),
        serial_dev_name("rfcomm"@ + suffix),
        serial_dev_name("cu."@ + suffix),
        serial_dev_name("tty."@ + suffix),
        serial_dev_name("serial0"@),
        serial_dev_name("serial1"@),
        !starts_with(name, "tty"@) && !starts_with(name, "rfcomm"@) && !starts_with(name, "cu."@)
            && !starts_with(name, "serial"@) ==> !serial_dev_name(name),
{
    assert(("ttyUSB"@ + suffix).subrange(0, "ttyUSB"@.len() as int) =~= "ttyUSB"@);
    assert(("ttyACM"@ + suffix).subrange(0, "ttyACM"@.len() as int) =~= "ttyACM"@);
    assert(("ttyS"@ + suffix).subrange(0, "ttyS"@.len() as int) =~= "ttyS"@);
    assert(("ttyAMA"@ + suffix).subrange(0, "ttyAMA"@.len() as int) =~= "ttyAMA"@);
    assert(("ttyTHS"@ + suffix).subrange(0, "ttyTHS"@.len() as int) =~= "ttyTHS"@);
    assert(("ttyO"@ + suffix).subrange(0, "ttyO"@.len() as int) =~= "ttyO"@);
    assert(("ttyGS"@ + suffix).subrange(0, "ttyGS"@.len() as int) =~= "ttyGS"@);
    assert(("rfcomm"@ + suffix).subrange(0, "rfcomm"@.len() as int) =~= "rfcomm"@);
    assert(("cu."@ + suffix).subrange(0, "cu."@.len() as int) =~= "cu."@);
    assert(("tty."@ + suffix).subrange(0, "tty."@.len() as int) =~= "tty."@);
    reveal_strlit("tty");
    reveal_strlit("serial");
    reveal_strlit("serial0");
    reveal_strlit("serial1");
    reveal_strlit("ttyUSB");
    reveal_strlit("ttyACM");
    reveal_strlit("ttyS");
    reveal_strlit("ttyAMA");
    reveal_strlit("ttyTHS");
    reveal_strlit("ttyO");
    reveal_strlit("ttyGS");
    reveal_strlit("tty.");
    if serial_dev_name(name) && !starts_with(name, "rfcomm"@) && !starts_with(name, "cu."@) {
        if name == "serial0"@ || name == "serial1"@ {
            assert(name.subrange(0, 6) =~= "serial"@);
        } else {
            assert(name.subrange(0, 3) =~= name.subrange(0, 4).subrange(0, 3));
            assert(name.subrange(0, 3) =~= "tty"@);
        }
    }
}

/// Whether a name under `/dev/pts` is a terminal: all ASCII digits, and
/// not the multiplexer `ptmx`.
pub open spec fn pty_name(name: Seq<char>) -> bool {
    name != "ptmx"@ && forall|i: int| 0 <= i < name.len() ==> '0' <= #[trigger] name[i] <= '9'
}

/// Whether `/dev/pts/<name>` is listed as a port.
pub fn is_pty_name(name: &str) -> (r: bool)
    ensures
        r == pty_name(name@),
{
    if str_eq(name, "ptmx") {
        return false;
    }
    let v = crate::text::chars_of(name);
    let mut i: usize = 0;
    while i < v.len()
        invariant
            0 <= i <= v@.len(),
            v@ == name@,
            forall|k: int| 0 <= k < i ==> '0' <= #[trigger] v@[k] <= '9',
        decreases v@.len() - i,
    {
        if !('0' <= v[i] && v[i] <= '9') {
            return false;
        }
        i += 1;
    }
    true
}

/// The names sorted ascending with repeats dropped, as `sort` then `dedup`
/// leave them.
pub open spec fn sorted_unique(names: Seq<Seq<char>>) -> Seq<Seq<char>>
    decreases names.len(),
{
    if names.len() == 0 {
        seq![]
    } else {
        insert_name(sorted_unique(names.drop_last()), names.last())
    }
}

/// Sorts `names` ascending and drops repeats.
pub fn sort_dedup(names: &Vec<String>) -> (out: Vec<String>)
    ensures
        views(out@) == sorted_unique(views(names@)),
        strictly_sorted(views(out@)),
{
    let mut out: Vec<String> = Vec::new();
    let mut i: usize = 0;
    assert(views(names@).take(0) =~= Seq::<Seq<char>>::empty());
    assert(views(out@) =~= Seq::<Seq<char>>::empty());
    while i < names.len()
        invariant
            0 <= i <= names@.len(),
            views(out@) == sorted_unique(views(names@).take(i as int)),
            strictly_sorted(views(out@)),
        decreases names@.len() - i,
    {
        assert(views(names@).take(i + 1).drop_last() =~= views(names@).take(i as int));
        assert(views(names@).take(i + 1).last() == names@[i as int]@);
        proof {
            lemma_insert_name_sorted(views(out@), names@[i as int]@);
        }
        insert_name_exec(&mut out, names[i].as_str());
        i += 1;
    }
    assert(views(names@).take(names@.len() as int) =~= views(names@));
    out
}

/// The ports as listed: the stable aliases first, then the serial devices,
/// then the terminals, each group sorted with repeats dropped.
pub fn order_ports(stable_aliases: &Vec<String>, devices: &Vec<String>, ptys: &Vec<String>) -> (out: Vec<String>)
    ensures
        views(out@) == sorted_unique(views(stable_aliases@)) + sorted_unique(views(devices@))
            + sorted_unique(views(ptys@)),
{
    let mut out = sort_dedup(stable_aliases);
    let mut b = sort_dedup(devices);
    let mut c = sort_dedup(ptys);
    let ghost va = views(out@);
    let ghost vb = views(b@);
    let ghost vc = views(c@);
    out.append(&mut b);
    assert(views(out@) =~= va + vb);
    out.append(&mut c);
    assert(views(out@) =~= va + vb + vc);
    out
}

/// Whether an error message says that access was denied.
pub open spec fn denied_text(message: Seq<char>) -> bool {
    let s = lower_seq(message);
    contains(s, "permission denied"@) || contains(s, "access is denied"@) || contains(s, "os error 13"@)
        || contains(s, "os error 5"@)
}

/// Whether an error message (any case) says that access was denied.
pub fn is_permission_denied_text(message: &str) -> (r: bool)
    ensures
        r == denied_text(message@),
{
    let s = lowercase_string(message);
    str_contains(s.as_str(), "permission denied") || str_contains(s.as_str(), "access is denied")
        || str_contains(s.as_str(), "os error 13") || str_contains(s.as_str(), "os error 5")
}

/// The hint shown when port `port` could not be opened for lack of
/// permission (on Linux): join the `dialout` group, check the device's
/// permissions.  No hint for other failures.
pub fn open_failure_hint(port: &str, permission_denied: bool) -> (r: Option<String>)
    ensures
        !permission_denied ==> r is None,
        permission_denied ==> (r matches Some(h) && h@ == "Hint:\n- Linux: make sure your user can access `"@
            + port@ + "` (usually `dialout`, sometimes `uucp`).\n  Try: `sudo usermod -aG dialout $USER` then log out/in.\n- Check permissions: `ls -l "@
            + port@ + "`"@),
{
    if !permission_denied {
        return None;
    }
    let mut hint = String::new();
    push_str(&mut hint, "Hint:\n- Linux: make sure your user can access `");
    push_str(&mut hint, port);
    push_str(&mut hint, "` (usually `dialout`, sometimes `uucp`).\n  Try: `sudo usermod -aG dialout $USER` then log out/in.\n- Check permissions: `ls -l ");
    push_str(&mut hint, port);
    push_str(&mut hint, "`");
    Some(hint)
}

} // verus!
