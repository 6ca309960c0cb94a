//! The devices a user may reach, as a table, and picking one by its name.

use crate::protocol::{grouped, ten_digits, DeviceId, Role};
use crate::text::{
    chars_of, column, contains, decimal, holds, lowercase, lowercase_of, push_column, push_decimal,
    same_text, starts, trim_text, trimmed,
};
use vstd::prelude::*;

verus! {

/// One device a server listed.
#[derive(Debug)]
pub struct Listed {
    pub id: DeviceId,
    pub name: String,
    pub online: bool,
    pub role: Role,
}

impl Listed {
    /// The device's number as it is shown.
    pub open spec fn shown(&self) -> Seq<char> {
        grouped(ten_digits(self.id.number()))
    }
}

/// `parts` with `between` between each two.
pub open spec fn joined(parts: Seq<Seq<char>>, between: Seq<char>) -> Seq<char>
    decreases parts.len(),
{
    if parts.len() == 0 {
        Seq::empty()
    } else if parts.len() == 1 {
        parts[0]
    } else {
        joined(parts.drop_last(), between) + between + parts.last()
    }
}

/// The first `n` devices called `wanted`, in small letters, by place.
pub open spec fn named(devices: Seq<Listed>, wanted: Seq<char>, n: int) -> Seq<int>
    decreases n,
{
    if n <= 0 {
        Seq::empty()
    } else if lowercase_of(devices[n - 1].name@) == wanted {
        named(devices, wanted, n - 1).push(n - 1)
    } else {
        named(devices, wanted, n - 1)
    }
}

/// Of the first `n` devices those, up to five, whose name holds `wanted`.
pub open spec fn near(devices: Seq<Listed>, wanted: Seq<char>, n: int) -> Seq<int>
    decreases n,
{
    if n <= 0 {
        Seq::empty()
    } else {
        let before = near(devices, wanted, n - 1);
        if before.len() < 5 && holds(lowercase_of(devices[n - 1].name@), wanted) {
            before.push(n - 1)
        } else {
            before
        }
    }
}

pub open spec fn not_listed(more: u64) -> Seq<char> {
    if more > 0 {
        "; "@ + decimal(more as nat) + " more were not listed, so give its ID"@
    } else {
        Seq::empty()
    }
}

pub open spec fn nobody(name: Seq<char>, count: nat, more: u64) -> Seq<char> {
    "no device called \""@ + name + "\" among the "@ + decimal(count) + " you may reach"@
        + not_listed(more)
}

/// `NAME (123 456 7890)` for each place.
pub open spec fn hints(devices: Seq<Listed>, places: Seq<int>) -> Seq<Seq<char>> {
    places.map_values(
        |i: int| devices[i].name@ + " ("@ + devices[i].shown() + ")"@,
    )
}

pub open spec fn did_you_mean(
    name: Seq<char>,
    devices: Seq<Listed>,
    places: Seq<int>,
    more: u64,
) -> Seq<char> {
    "no device called \""@ + name + "\"; did you mean "@ + joined(hints(devices, places), ", "@)
        + not_listed(more)
}

pub open spec fn numbers(devices: Seq<Listed>, places: Seq<int>) -> Seq<Seq<char>> {
    places.map_values(|i: int| devices[i].shown())
}

pub open spec fn several(name: Seq<char>, devices: Seq<Listed>, places: Seq<int>) -> Seq<char> {
    decimal(places.len()) + " devices are called \""@ + name + "\"; give one's ID: "@ + joined(
        numbers(devices, places),
        ", "@,
    )
}

/// What picking `name` comes to.
pub open spec fn picked(devices: Seq<Listed>, more: u64, name: Seq<char>) -> Result<
    DeviceId,
    Seq<char>,
> {
    let wanted = lowercase_of(trimmed(name));
    let all = named(devices, wanted, devices.len() as int);
    let close = near(devices, wanted, devices.len() as int);
    if all.len() == 1 {
        Ok(devices[all[0]].id)
    } else if all.len() > 1 {
        Err(several(name, devices, all))
    } else if close.len() == 0 {
        Err(nobody(name, devices.len(), more))
    } else {
        Err(did_you_mean(name, devices, close, more))
    }
}

proof fn lemma_places(devices: Seq<Listed>, wanted: Seq<char>, n: int)
    requires
        0 <= n <= devices.len(),
    ensures
        forall|i: int|
            0 <= i < named(devices, wanted, n).len() ==> 0 <= #[trigger] named(
                devices,
                wanted,
                n,
            )[i] < n,
        forall|i: int|
            0 <= i < near(devices, wanted, n).len() ==> 0 <= #[trigger] near(
                devices,
                wanted,
                n,
            )[i] < n,
        near(devices, wanted, n).len() <= 5,
    decreases n,
{
    if n > 0 {
        lemma_places(devices, wanted, n - 1);
        let all = named(devices, wanted, n);
        let all_before = named(devices, wanted, n - 1);
        assert forall|i: int| 0 <= i < all.len() implies 0 <= #[trigger] all[i] < n by {
            if i < all_before.len() {
                assert(all[i] == all_before[i]);
            }
        }
        let close = near(devices, wanted, n);
        let close_before = near(devices, wanted, n - 1);
        assert forall|i: int| 0 <= i < close.len() implies 0 <= #[trigger] close[i] < n by {
            if i < close_before.len() {
                assert(close[i] == close_before[i]);
            }
        }
    }
}

fn push_not_listed(out: &mut String, more: u64)
    ensures
        final(out)@ == old(out)@ + not_listed(more),
{
    if more > 0 {
        out.append("; ");
        push_decimal(out, more);
        out.append(" more were not listed, so give its ID");
    }
    assert(out@ =~= old(out)@ + not_listed(more));
}

/// The texts that `parts` puts together, with commas between them.
fn push_hints(out: &mut String, devices: &[Listed], places: &Vec<usize>, with_names: bool)
    requires
        forall|i: int| 0 <= i < places@.len() ==> (#[trigger] places@[i]) < devices@.len(),
    ensures
        final(out)@ == old(out)@ + joined(
            if with_names {
                hints(devices@, places@.map_values(|i: usize| i as int))
            } else {
                numbers(devices@, places@.map_values(|i: usize| i as int))
            },
            ", "@,
        ),
{
    let ghost at = places@.map_values(|i: usize| i as int);
    let ghost parts = if with_names {
        hints(devices@, at)
    } else {
        numbers(devices@, at)
    };
    let mut k: usize = 0;
    assert(out@ =~= old(out)@ + joined(parts.take(0), ", "@));
    while k < places.len()
        invariant
            k <= places@.len(),
            at == places@.map_values(|i: usize| i as int),
            parts == (if with_names {
                hints(devices@, at)
            } else {
                numbers(devices@, at)
            }),
            forall|i: int| 0 <= i < places@.len() ==> (#[trigger] places@[i]) < devices@.len(),
            out@ == old(out)@ + joined(parts.take(k as int), ", "@),
        decreases places.len() - k,
    {
        let ghost before = out@;
        let place: usize = places[k];
        if k > 0 {
            out.append(", ");
        }
        if with_names {
            out.append(&devices[place].name);
            out.append(" (");
            out.append(&devices[place].id.text());
            out.append(")");
        } else {
            out.append(&devices[place].id.text());
        }
        proof {
            assert(parts.take(k + 1).drop_last() =~= parts.take(k as int));
            assert(parts.take(k + 1).last() == parts[k as int]);
            if k == 0 {
                assert(parts.take(0) =~= Seq::<Seq<char>>::empty());
                assert(out@ =~= before + parts[0]);
            } else {
                assert(out@ =~= before + ", "@ + parts[k as int]);
            }
            assert(out@ =~= old(out)@ + joined(parts.take(k + 1), ", "@));
        }
        k = k + 1;
    }
    assert(parts.take(k as int) =~= parts);
}

/// The one device called `name`, ignoring case. Two with that name, or none,
/// is an error that says which numbers to use instead.
pub fn pick(devices: &[Listed], more: u64, name: &str) -> (choice: Result<DeviceId, String>)
    ensures
        match choice {
            Ok(id) => picked(devices@, more, name@) == Ok::<DeviceId, Seq<char>>(id),
            Err(why) => picked(devices@, more, name@) == Err::<DeviceId, Seq<char>>(why@),
        },
{
    let wanted = lowercase(&trim_text(name));
    let wanted_chars = chars_of(&wanted);
    let mut all: Vec<usize> = Vec::new();
    let mut close: Vec<usize> = Vec::new();
    let mut i: usize = 0;
    assert(all@.map_values(|i: usize| i as int) =~= named(devices@, wanted@, 0));
    assert(close@.map_values(|i: usize| i as int) =~= near(devices@, wanted@, 0));
    while i < devices.len()
        invariant
            i <= devices@.len(),
            wanted_chars@ == wanted@,
            all@.map_values(|i: usize| i as int) == named(devices@, wanted@, i as int),
            close@.map_values(|i: usize| i as int) == near(devices@, wanted@, i as int),
        decreases devices.len() - i,
    {
        let lower = lowercase(&devices[i].name);
        let ghost all_before = all@;
        let ghost close_before = close@;
        if same_text(&lower, &wanted) {
            all.push(i);
            assert(all@.map_values(|i: usize| i as int) =~= all_before.map_values(
                |i: usize| i as int,
            ).push(i as int));
        }
        assert(close@.len() == close@.map_values(|i: usize| i as int).len());
        if close.len() < 5 && contains(&chars_of(&lower), &wanted_chars) {
            close.push(i);
            assert(close@.map_values(|i: usize| i as int) =~= close_before.map_values(
                |i: usize| i as int,
            ).push(i as int));
        }
        i = i + 1;
    }
    let ghost all_places = all@.map_values(|i: usize| i as int);
    let ghost close_places = close@.map_values(|i: usize| i as int);
    proof {
        lemma_places(devices@, wanted@, devices@.len() as int);
        assert(all_places.len() == all@.len());
        assert(close_places.len() == close@.len());
        assert forall|i: int| 0 <= i < all@.len() implies (#[trigger] all@[i])
            < devices@.len() by {
            assert(all_places[i] == all@[i]);
        }
        assert forall|i: int| 0 <= i < close@.len() implies (#[trigger] close@[i])
            < devices@.len() by {
            assert(close_places[i] == close@[i]);
        }
    }
    if all.len() == 1 {
        assert(all_places[0] == all@[0]);
        return Ok(devices[all[0]].id);
    }
    if all.len() > 1 {
        let mut why = String::new();
        push_decimal(&mut why, all.len() as u64);
        why.append(" devices are called \"");
        why.append(name);
        why.append("\"; give one's ID: ");
        push_hints(&mut why, devices, &all, false);
        assert(why@ =~= several(name@, devices@, all_places));
        return Err(why);
    }
    if close.len() == 0 {
        let mut why = "no device called \"".to_owned();
        why.append(name);
        why.append("\" among the ");
        push_decimal(&mut why, devices.len() as u64);
        why.append(" you may reach");
        push_not_listed(&mut why, more);
        return Err(why);
    }
    let mut why = "no device called \"".to_owned();
    why.append(name);
    why.append("\"; did you mean ");
    push_hints(&mut why, devices, &close, true);
    push_not_listed(&mut why, more);
    Err(why)
}

/// A name that two devices share picks neither.
pub proof fn lemma_two_are_not_guessed_between(
    devices: Seq<Listed>,
    more: u64,
    name: Seq<char>,
    a: int,
    b: int,
)
    requires
        0 <= a < b < devices.len(),
        lowercase_of(devices[a].name@) == lowercase_of(trimmed(name)),
        lowercase_of(devices[b].name@) == lowercase_of(trimmed(name)),
    ensures
        picked(devices, more, name) is Err,
{
    let wanted = lowercase_of(trimmed(name));
    lemma_counted(devices, wanted, a, b, devices.len() as int);
}

proof fn lemma_counted(devices: Seq<Listed>, wanted: Seq<char>, a: int, b: int, n: int)
    requires
        0 <= a < b < devices.len(),
        0 <= n <= devices.len(),
        lowercase_of(devices[a].name@) == wanted,
        lowercase_of(devices[b].name@) == wanted,
    ensures
        n > a ==> named(devices, wanted, n).len() >= 1,
        n > b ==> named(devices, wanted, n).len() >= 2,
    decreases n,
{
    if n > 0 {
        lemma_counted(devices, wanted, a, b, n - 1);
    }
}

/// Which places are named, and which are near.
proof fn lemma_found(devices: Seq<Listed>, wanted: Seq<char>, n: int)
    requires
        0 <= n <= devices.len(),
    ensures
        forall|i: int|
            0 <= i < n && lowercase_of((#[trigger] devices[i]).name@) == wanted ==> named(
                devices,
                wanted,
                n,
            ).contains(i),
        forall|k: int|
            0 <= k < named(devices, wanted, n).len() ==> lowercase_of(
                devices[#[trigger] named(devices, wanted, n)[k]].name@,
            ) == wanted,
        named(devices, wanted, n).no_duplicates(),
        forall|k: int|
            0 <= k < near(devices, wanted, n).len() ==> holds(
                lowercase_of(devices[#[trigger] near(devices, wanted, n)[k]].name@),
                wanted,
            ),
        near(devices, wanted, n).no_duplicates(),
        near(devices, wanted, n).len() < 5 ==> forall|i: int|
            0 <= i < n && holds(lowercase_of((#[trigger] devices[i]).name@), wanted) ==> near(
                devices,
                wanted,
                n,
            ).contains(i),
    decreases n,
{
    if n > 0 {
        lemma_found(devices, wanted, n - 1);
        lemma_places(devices, wanted, n - 1);
        let (all, all_before) = (named(devices, wanted, n), named(devices, wanted, n - 1));
        let (close, close_before) = (near(devices, wanted, n), near(devices, wanted, n - 1));
        assert(forall|k: int| 0 <= k < all_before.len() ==> all[k] == #[trigger] all_before[k]);
        assert(forall|k: int| 0 <= k < close_before.len() ==> close[k] == #[trigger] close_before[k]);
        assert forall|i: int|
            0 <= i < n && lowercase_of((#[trigger] devices[i]).name@)
                == wanted implies all.contains(i) by {
            if i < n - 1 {
                let k = choose|k: int| 0 <= k < all_before.len() && all_before[k] == i;
                assert(all[k] == i);
            } else {
                assert(all[all.len() - 1] == i);
            }
        }
        if close.len() < 5 {
            assert forall|i: int|
                0 <= i < n && holds(
                    lowercase_of((#[trigger] devices[i]).name@),
                    wanted,
                ) implies close.contains(i) by {
                if i < n - 1 {
                    let k = choose|k: int| 0 <= k < close_before.len() && close_before[k] == i;
                    assert(close[k] == i);
                } else {
                    assert(close[close.len() - 1] == i);
                }
            }
        }
    }
}

/// The only device with a name is picked by it, whatever the case of its
/// letters and the space around what was asked for.
pub proof fn lemma_the_one_with_that_name_is_picked(
    devices: Seq<Listed>,
    more: u64,
    name: Seq<char>,
    i: int,
)
    requires
        0 <= i < devices.len(),
        lowercase_of(devices[i].name@) == lowercase_of(trimmed(name)),
        forall|j: int|
            0 <= j < devices.len() && j != i ==> lowercase_of((#[trigger] devices[j]).name@)
                != lowercase_of(trimmed(name)),
    ensures
        picked(devices, more, name) == Ok::<DeviceId, Seq<char>>(devices[i].id),
{
    let wanted = lowercase_of(trimmed(name));
    let n = devices.len() as int;
    let all = named(devices, wanted, n);
    lemma_found(devices, wanted, n);
    lemma_places(devices, wanted, n);
    assert(all.contains(i));
    let k = choose|k: int| 0 <= k < all.len() && all[k] == i;
    if all.len() > 1 {
        let other: int = if k == 0 {
            1
        } else {
            0
        };
        assert(lowercase_of(devices[all[other]].name@) == wanted);
    }
}

/// What is picked has that name, and nothing else has: a device whose name
/// only holds those words is not it.
pub proof fn lemma_what_is_picked_has_that_name(
    devices: Seq<Listed>,
    more: u64,
    name: Seq<char>,
    id: DeviceId,
)
    requires
        picked(devices, more, name) == Ok::<DeviceId, Seq<char>>(id),
    ensures
        exists|i: int|
            {
                &&& 0 <= i < devices.len()
                &&& (#[trigger] devices[i]).id == id
                &&& lowercase_of(devices[i].name@) == lowercase_of(trimmed(name))
                &&& forall|j: int|
                    0 <= j < devices.len() && lowercase_of((#[trigger] devices[j]).name@)
                        == lowercase_of(trimmed(name)) ==> j == i
            },
{
    let wanted = lowercase_of(trimmed(name));
    let n = devices.len() as int;
    let all = named(devices, wanted, n);
    lemma_found(devices, wanted, n);
    lemma_places(devices, wanted, n);
    let i = all[0];
    assert(lowercase_of(devices[i].name@) == wanted);
    assert forall|j: int|
        0 <= j < n && lowercase_of((#[trigger] devices[j]).name@) == wanted implies j == i by {
        assert(all.contains(j));
    }
    assert(devices[i].id == id);
}

/// A name that no device has is answered with up to five whose names hold it,
/// or with how many there are where none does; a name that several have, with
/// the numbers of those.
pub proof fn lemma_what_is_suggested_goes_by_the_name(
    devices: Seq<Listed>,
    more: u64,
    name: Seq<char>,
)
    requires
        picked(devices, more, name) is Err,
    ensures
        ({
            let wanted = lowercase_of(trimmed(name));
            let why = picked(devices, more, name)->Err_0;
            if exists|i: int| 0 <= i < devices.len() && lowercase_of(
                (#[trigger] devices[i]).name@,
            ) == wanted {
                exists|at: Seq<int>|
                    {
                        &&& why == #[trigger] several(name, devices, at)
                        &&& at.len() >= 2 && at.no_duplicates()
                        &&& forall|i: int|
                            at.contains(i) <==> 0 <= i < devices.len() && lowercase_of(
                                (#[trigger] devices[i]).name@,
                            ) == wanted
                    }
            } else if exists|i: int| 0 <= i < devices.len() && holds(
                lowercase_of((#[trigger] devices[i]).name@),
                wanted,
            ) {
                exists|at: Seq<int>|
                    {
                        &&& why == #[trigger] did_you_mean(name, devices, at, more)
                        &&& 1 <= at.len() <= 5 && at.no_duplicates()
                        &&& forall|i: int| #[trigger]
                            at.contains(i) ==> 0 <= i < devices.len() && holds(
                                lowercase_of(devices[i].name@),
                                wanted,
                            )
                    }
            } else {
                why == nobody(name, devices.len(), more)
            }
        }),
{
    let wanted = lowercase_of(trimmed(name));
    let n = devices.len() as int;
    let all = named(devices, wanted, n);
    let close = near(devices, wanted, n);
    lemma_found(devices, wanted, n);
    lemma_places(devices, wanted, n);
    if exists|i: int| 0 <= i < n && lowercase_of((#[trigger] devices[i]).name@) == wanted {
        let i = choose|i: int| 0 <= i < n && lowercase_of((#[trigger] devices[i]).name@) == wanted;
        assert(all.contains(i));
        assert(picked(devices, more, name)->Err_0 == several(name, devices, all));
        assert forall|i: int|
            all.contains(i) <==> 0 <= i < n && lowercase_of((#[trigger] devices[i]).name@)
                == wanted by {
            if all.contains(i) {
                let k = choose|k: int| 0 <= k < all.len() && all[k] == i;
                assert(lowercase_of(devices[all[k]].name@) == wanted);
            }
        }
    } else {
        if all.len() > 0 {
            assert(lowercase_of(devices[all[0]].name@) == wanted);
        }
        if exists|i: int| 0 <= i < n && holds(lowercase_of((#[trigger] devices[i]).name@), wanted) {
            let i = choose|i: int|
                0 <= i < n && holds(lowercase_of((#[trigger] devices[i]).name@), wanted);
            if close.len() < 5 {
                assert(close.contains(i));
            }
            assert(picked(devices, more, name)->Err_0 == did_you_mean(name, devices, close, more));
            assert forall|i: int| #[trigger] close.contains(i) implies 0 <= i < n && holds(
                lowercase_of(devices[i].name@),
                wanted,
            ) by {
                let k = choose|k: int| 0 <= k < close.len() && close[k] == i;
                assert(holds(lowercase_of(devices[close[k]].name@), wanted));
            }
        } else if close.len() > 0 {
            assert(holds(lowercase_of(devices[close[0]].name@), wanted));
        }
    }
}

// --- The table -----------------------------------------------------------------------------

pub open spec fn row(device: &Listed) -> Seq<char> {
    column(device.shown(), 14) + column(
        if device.online {
            "yes"@
        } else {
            "no"@
        },
        9,
    ) + column(device.role.name(), 9) + device.name@ + "\n"@
}

/// The rows of the devices that are online, or of those that are not, in the
/// order given.
pub open spec fn rows(devices: Seq<Listed>, online: bool, n: int) -> Seq<char>
    decreases n,
{
    if n <= 0 {
        Seq::empty()
    } else if devices[n - 1].online == online {
        rows(devices, online, n - 1) + row(&devices[n - 1])
    } else {
        rows(devices, online, n - 1)
    }
}

pub open spec fn heading() -> Seq<char> {
    column("ID"@, 14) + column("ONLINE"@, 9) + column("ROLE"@, 9) + "NAME\n"@
}

/// The answer to a question for devices: online ones first, in the server's
/// order within that.
pub open spec fn table_of(devices: Seq<Listed>, more: u64) -> Seq<char> {
    if devices.len() == 0 && more == 0 {
        "No devices: your user holds no grants on this server. An administrator gives them in the console, under Access.\n"@
    } else {
        heading() + rows(devices, true, devices.len() as int) + rows(
            devices,
            false,
            devices.len() as int,
        ) + (if more > 0 {
            "… and "@ + decimal(more as nat) + " more the server did not list\n"@
        } else {
            Seq::empty()
        })
    }
}

fn push_rows(out: &mut String, devices: &[Listed], online: bool)
    ensures
        final(out)@ == old(out)@ + rows(devices@, online, devices@.len() as int),
{
    let mut i: usize = 0;
    assert(out@ =~= old(out)@ + rows(devices@, online, 0));
    while i < devices.len()
        invariant
            i <= devices@.len(),
            out@ == old(out)@ + rows(devices@, online, i as int),
        decreases devices.len() - i,
    {
        let ghost before = out@;
        if devices[i].online == online {
            push_column(out, &devices[i].id.text(), 14);
            push_column(
                out,
                if devices[i].online {
                    "yes"
                } else {
                    "no"
                },
                9,
            );
            push_column(out, devices[i].role.as_str(), 9);
            out.append(&devices[i].name);
            out.append("\n");
            assert(out@ =~= before + row(&devices@[i as int]));
        }
        assert(out@ =~= old(out)@ + rows(devices@, online, i + 1));
        i = i + 1;
    }
}

/// The table for a person to read.
pub fn table(devices: &[Listed], more: u64) -> (text: String)
    ensures
        text@ == table_of(devices@, more),
{
    if devices.len() == 0 && more == 0 {
        return "No devices: your user holds no grants on this server. An administrator gives them in the console, under Access.\n".to_owned();
    }
    let mut out = String::new();
    push_column(&mut out, "ID", 14);
    push_column(&mut out, "ONLINE", 9);
    push_column(&mut out, "ROLE", 9);
    out.append("NAME\n");
    assert(out@ =~= heading());
    push_rows(&mut out, devices, true);
    push_rows(&mut out, devices, false);
    if more > 0 {
        out.append("… and ");
        push_decimal(&mut out, more);
        out.append(" more the server did not list\n");
    }
    assert(out@ =~= table_of(devices@, more));
    out
}

/// The rows of these devices, one after the other.
pub open spec fn listed_rows(devices: Seq<Listed>) -> Seq<char>
    decreases devices.len(),
{
    if devices.len() == 0 {
        Seq::empty()
    } else {
        listed_rows(devices.drop_last()) + row(&devices.last())
    }
}

proof fn lemma_rows_are_listed(devices: Seq<Listed>, online: bool, n: int)
    requires
        0 <= n <= devices.len(),
    ensures
        rows(devices, online, n) == listed_rows(
            devices.take(n).filter(|device: Listed| device.online == online),
        ),
    decreases n,
{
    reveal(Seq::filter);
    let which = |device: Listed| device.online == online;
    if n > 0 {
        lemma_rows_are_listed(devices, online, n - 1);
        assert(devices.take(n).drop_last() =~= devices.take(n - 1));
        let less = devices.take(n - 1).filter(which);
        assert(less.push(devices[n - 1]).drop_last() =~= less);
    }
}

/// The table lists every device once: those that are online first, then the
/// others, each in the order they came in.
pub proof fn lemma_online_devices_come_first(devices: Seq<Listed>, more: u64)
    requires
        devices.len() > 0,
    ensures
        starts(
            table_of(devices, more),
            heading() + listed_rows(devices.filter(|device: Listed| device.online))
                + listed_rows(devices.filter(|device: Listed| !device.online)),
        ),
{
    let n = devices.len() as int;
    lemma_rows_are_listed(devices, true, n);
    lemma_rows_are_listed(devices, false, n);
    assert(devices.take(n) =~= devices);
    lemma_same_filter(devices, true);
    lemma_same_filter(devices, false);
    let first = heading() + rows(devices, true, n) + rows(devices, false, n);
    assert(table_of(devices, more).take(first.len() as int) =~= first);
}

proof fn lemma_same_filter(devices: Seq<Listed>, online: bool)
    ensures
        online ==> devices.filter(|device: Listed| device.online == online) == devices.filter(
            |device: Listed| device.online,
        ),
        !online ==> devices.filter(|device: Listed| device.online == online) == devices.filter(
            |device: Listed| !device.online,
        ),
    decreases devices.len(),
{
    reveal(Seq::filter);
    if devices.len() > 0 {
        lemma_same_filter(devices.drop_last(), online);
    }
}

/// A row says yes of a device that is online and no of one that is not, and
/// ends with its name.
pub proof fn lemma_rows_say_who_is_online(device: Listed)
    ensures
        row(&device) == column(device.shown(), 14) + column(
            match device.online {
                true => "yes"@,
                false => "no"@,
            },
            9,
        ) + column(device.role.name(), 9) + device.name@ + "\n"@,
        starts(row(&device), device.shown()),
        row(&device).last() == '\n',
{
    reveal_strlit("\n");
    crate::text::lemma_columns_are_filled(device.shown(), 14);
    let first = column(device.shown(), 14);
    assert(row(&device).take(first.len() as int) =~= first);
    assert(row(&device).take(device.shown().len() as int) =~= first.take(
        device.shown().len() as int,
    ));
}

}
