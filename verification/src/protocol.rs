//! The words the parts of the system share: device numbers, roles, refusals,
//! versions.

use crate::net::Address;
use crate::text::{decimal, lemma_decimal_reads_back, parsed, push_decimal};
use crate::transport::fingerprint::Fingerprint;
use crate::transport::grant::SignedGrant;
use crate::transport::release::SignedRelease;
use vstd::prelude::*;
use vstd::slice::slice_subrange;

verus! {

/// A device's number: ten digits, written `123 456 7890`.
#[derive(Debug, Clone, Copy, PartialEq, Eq, Structural)]
pub struct DeviceId {
    value: u64,
}

/// Digit `i` of the ten in which `n` is written.
pub open spec fn ten_digits(n: nat) -> Seq<char> {
    Seq::new(10, |i: int| crate::text::digit_char((n as int / power_of_ten(9 - i)) % 10))
}

/// 10 to the power of `k`.
pub open spec fn power_of_ten(k: int) -> int
    decreases k,
{
    if k <= 0 {
        1
    } else {
        10 * power_of_ten(k - 1)
    }
}

proof fn lemma_powers_of_ten()
    ensures
        power_of_ten(0) == 1,
        power_of_ten(1) == 10,
        power_of_ten(2) == 100,
        power_of_ten(3) == 1_000,
        power_of_ten(4) == 10_000,
        power_of_ten(5) == 100_000,
        power_of_ten(6) == 1_000_000,
        power_of_ten(7) == 10_000_000,
        power_of_ten(8) == 100_000_000,
        power_of_ten(9) == 1_000_000_000,
{
    reveal_with_fuel(power_of_ten, 11);
}

/// The ten digits of a number below 10^10, leading zeros and all.
pub fn push_ten_digits(out: &mut String, n: u64)
    requires
        n < 10_000_000_000,
    ensures
        final(out)@ == old(out)@ + ten_digits(n as nat),
{
    proof {
        lemma_powers_of_ten();
    }
    let mut unit: u64 = 1_000_000_000;
    let mut i: usize = 0;
    assert(out@ =~= old(out)@ + ten_digits(n as nat).take(0));
    while i < 10
        invariant
            i <= 10,
            n < 10_000_000_000,
            i < 10 ==> unit == power_of_ten(9 - i as int),
            out@ == old(out)@ + ten_digits(n as nat).take(i as int),
        decreases 10 - i,
    {
        proof {
            lemma_powers_of_ten();
            assert(power_of_ten(9 - i as int) >= 1) by {
                lemma_power_positive(9 - i as int);
            }
            assert(power_of_ten(9 - i as int) == 10 * power_of_ten(8 - i as int) || i == 9);
        }
        let d: u64 = (n / unit) % 10;
        out.push((48 + d as u8) as char);
        assert(out@ =~= old(out)@ + ten_digits(n as nat).take(i + 1)) by {
            assert(ten_digits(n as nat)[i as int] == crate::text::digit_char(d as int));
        }
        unit = unit / 10;
        i = i + 1;
    }
    assert(ten_digits(n as nat).take(10) =~= ten_digits(n as nat));
}

proof fn lemma_power_positive(k: int)
    ensures
        power_of_ten(k) >= 1,
    decreases k,
{
    if k > 0 {
        lemma_power_positive(k - 1);
    }
}

/// The ten digits of a number read back as it.
pub proof fn lemma_ten_digits_read_back(n: nat)
    requires
        n < 10_000_000_000,
    ensures
        ten_digits(n).len() == 10,
        crate::text::all_digits(ten_digits(n)),
        parsed(ten_digits(n), u64::MAX as nat) == Some(n),
{
    let s = ten_digits(n);
    lemma_powers_of_ten();
    assert forall|i: int| 0 <= i < s.len() implies crate::text::is_digit(#[trigger] s[i]) by {
        lemma_power_positive(9 - i);
    }
    lemma_digits_so_far(n, 10);
    assert(s.take(10) =~= s);
    assert(crate::text::is_digit(s[0]));
}

proof fn lemma_digits_so_far(n: nat, k: int)
    requires
        n < 10_000_000_000,
        0 <= k <= 10,
    ensures
        crate::text::number(ten_digits(n).take(k)) == n as int / power_of_ten(10 - k),
    decreases k,
{
    let s = ten_digits(n);
    lemma_powers_of_ten();
    if k == 0 {
        assert(s.take(0) =~= Seq::<char>::empty());
        assert(power_of_ten(10) == 10 * power_of_ten(9));
        assert(n as int / 10_000_000_000 == 0);
    } else {
        lemma_digits_so_far(n, k - 1);
        assert(s.take(k).drop_last() =~= s.take(k - 1));
        let unit = power_of_ten(10 - k);
        lemma_power_positive(10 - k);
        assert(power_of_ten(11 - k) == 10 * unit);
        let q = n as int / unit;
        assert(n as int / (10 * unit) == q / 10) by {
            vstd::arithmetic::div_mod::lemma_div_denominator(n as int, unit, 10);
            assert(unit * 10 == 10 * unit) by (nonlinear_arith);
        }
        assert(s.take(k).last() == crate::text::digit_char(q % 10));
        assert(crate::text::number(s.take(k)) == (q / 10) * 10 + q % 10);
    }
}

/// `123 456 7890`.
pub open spec fn grouped(digits: Seq<char>) -> Seq<char> {
    digits.subrange(0, 3) + seq![' '] + digits.subrange(3, 6) + seq![' '] + digits.subrange(6, 10)
}

impl DeviceId {
    pub closed spec fn number(&self) -> nat {
        self.value as nat
    }

    #[verifier::type_invariant]
    spec fn wf(&self) -> bool {
        self.value < 10_000_000_000
    }

    /// The device with this number, if it has no more than ten digits.
    pub fn new(value: u64) -> (id: Option<DeviceId>)
        ensures
            match id {
                Some(id) => value < 10_000_000_000 && id.number() == value,
                None => value >= 10_000_000_000,
            },
    {
        if value < 10_000_000_000 {
            Some(DeviceId { value })
        } else {
            None
        }
    }

    pub fn value(&self) -> (value: u64)
        ensures
            value == self.number(),
            value < 10_000_000_000,
    {
        proof {
            use_type_invariant(self);
        }
        self.value
    }

    pub open spec fn written(&self) -> Seq<char> {
        grouped(ten_digits(self.number()))
    }

    /// As devices show it: `123 456 7890`.
    pub fn text(&self) -> (text: String)
        ensures
            text@ == self.written(),
    {
        proof {
            use_type_invariant(self);
        }
        let mut digits = String::new();
        push_ten_digits(&mut digits, self.value);
        assert(digits@ =~= ten_digits(self.number()));
        let chars = crate::text::chars_of(&digits);
        let mut out = crate::text::text_of(slice_subrange(&chars, 0, 3));
        out.push(' ');
        out.append(&crate::text::text_of(slice_subrange(&chars, 3, 6)));
        out.push(' ');
        out.append(&crate::text::text_of(slice_subrange(&chars, 6, 10)));
        assert(out@ =~= grouped(ten_digits(self.number())));
        out
    }
}

/// What a grant lets its holder do; each includes the one before.
#[derive(Debug, Clone, Copy, PartialEq, Eq, Structural)]
pub enum Role {
    View,
    Control,
    Full,
}

impl Role {
    /// How much a role allows: the higher includes the lower.
    pub open spec fn rank(&self) -> int {
        match self {
            Role::View => 0,
            Role::Control => 1,
            Role::Full => 2,
        }
    }

    pub open spec fn name(&self) -> Seq<char> {
        match self {
            Role::View => "view"@,
            Role::Control => "control"@,
            Role::Full => "full"@,
        }
    }

    pub fn as_str(&self) -> (name: &'static str)
        ensures
            name@ == self.name(),
    {
        match self {
            Role::View => "view",
            Role::Control => "control",
            Role::Full => "full",
        }
    }

    /// Whether this role allows more than `other`.
    pub fn exceeds(&self, other: &Role) -> (more: bool)
        ensures
            more == (self.rank() > other.rank()),
            more == (match (*self, *other) {
                (Role::Full, Role::View) | (Role::Full, Role::Control) => true,
                (Role::Control, Role::View) => true,
                _ => false,
            }),
    {
        match (self, other) {
            (Role::Control, Role::View) | (Role::Full, Role::View) | (Role::Full, Role::Control) =>
                true,
            _ => false,
        }
    }

    /// The role with this name, if there is one.
    pub fn named(name: &str) -> (role: Option<Role>)
        ensures
            match role {
                Some(role) => role.name() == name@,
                None => forall|role: Role| #[trigger] role.name() != name@,
            },
    {
        proof {
            reveal_strlit("view");
            reveal_strlit("control");
            reveal_strlit("full");
        }
        if crate::text::same_text(name, "view") {
            Some(Role::View)
        } else if crate::text::same_text(name, "control") {
            Some(Role::Control)
        } else if crate::text::same_text(name, "full") {
            Some(Role::Full)
        } else {
            None
        }
    }
}

/// Viewing is less than control, and control is less than everything: of two
/// different roles one is the higher, and nothing else is.
pub proof fn lemma_roles_are_in_order(a: Role, b: Role)
    ensures
        a.rank() > b.rank() <==> (a == Role::Full && b != Role::Full) || (a == Role::Control && b
            == Role::View),
        a.rank() == b.rank() <==> a == b,
{
}

/// A role is known by its name, and by no other.
pub proof fn lemma_roles_have_names(a: Role, b: Role)
    ensures
        a.name() == b.name() <==> a == b,
        a.name() == "view"@ <==> a == Role::View,
        a.name() == "control"@ <==> a == Role::Control,
        a.name() == "full"@ <==> a == Role::Full,
{
    reveal_strlit("view");
    reveal_strlit("control");
    reveal_strlit("full");
    assert("view"@[0] == 'v' && "control"@[0] == 'c' && "full"@[0] == 'f');
}

/// A device's number is written as ten digits, with a space behind the third
/// and behind the sixth; without the spaces they read back as the number.
pub proof fn lemma_device_numbers_read_back(id: DeviceId)
    requires
        id.number() < 10_000_000_000,
    ensures
        id.written().len() == 12,
        id.written()[3] == ' ',
        id.written()[7] == ' ',
        parsed(
            id.written().take(3) + id.written().subrange(4, 7) + id.written().skip(8),
            u64::MAX as nat,
        ) == Some(id.number()),
{
    let s = ten_digits(id.number());
    let w = id.written();
    lemma_ten_digits_read_back(id.number());
    assert(w =~= grouped(s));
    assert(w.take(3) + w.subrange(4, 7) + w.skip(8) =~= s);
}

/// Why a server turned a request down.
#[derive(Debug, Clone, Copy, PartialEq, Eq, Structural)]
pub enum Refusal {
    Offline,
    NoCertificate,
    IdTaken,
    Declined,
    TooManyAttempts,
    Protocol,
    Enrollment,
    NotSignedIn,
    NotAllowed,
    Busy,
}

/// `major.minor.patch`.
#[derive(Debug, Clone, Copy, PartialEq, Eq, Structural)]
pub struct Version {
    pub major: u64,
    pub minor: u64,
    pub patch: u64,
}

impl Version {
    pub open spec fn written(&self) -> Seq<char> {
        decimal(self.major as nat) + seq!['.'] + decimal(self.minor as nat) + seq!['.'] + decimal(
            self.patch as nat,
        )
    }

    /// Newer: by the first number that differs.
    pub open spec fn newer(&self, other: &Version) -> bool {
        ||| self.major > other.major
        ||| self.major == other.major && self.minor > other.minor
        ||| self.major == other.major && self.minor == other.minor && self.patch > other.patch
    }

    pub fn is_newer(&self, other: &Version) -> (yes: bool)
        ensures
            yes == self.newer(other),
    {
        self.major > other.major || (self.major == other.major && (self.minor > other.minor || (
        self.minor == other.minor && self.patch > other.patch)))
    }

    pub fn text(&self) -> (text: String)
        ensures
            text@ == self.written(),
    {
        let mut out = String::new();
        push_decimal(&mut out, self.major);
        out.push('.');
        push_decimal(&mut out, self.minor);
        out.push('.');
        push_decimal(&mut out, self.patch);
        assert(out@ =~= self.written());
        out
    }
}

/// Versions go by the first of their numbers that differs. Of two different
/// ones exactly one is the newer, and what is newer than a newer one is newer.
pub proof fn lemma_versions_are_in_order(a: Version, b: Version, c: Version)
    ensures
        a.major != b.major ==> (a.newer(&b) <==> a.major > b.major),
        a.major == b.major && a.minor != b.minor ==> (a.newer(&b) <==> a.minor > b.minor),
        a.major == b.major && a.minor == b.minor ==> (a.newer(&b) <==> a.patch > b.patch),
        a != b ==> (a.newer(&b) <==> !b.newer(&a)),
        !a.newer(&a),
        a.newer(&b) && b.newer(&c) ==> a.newer(&c),
{
}

/// A version is written as its three numbers, the first first, with dots
/// between them, and each reads back.
pub proof fn lemma_versions_read_back(version: Version)
    ensures
        ({
            let first = decimal(version.major as nat).len() as int;
            let second = first + 1 + decimal(version.minor as nat).len();
            let text = version.written();
            &&& 0 < first < second - 1 < text.len() - 2
            &&& text[first] == '.'
            &&& text[second] == '.'
            &&& parsed(text.take(first), u64::MAX as nat) == Some(version.major as nat)
            &&& parsed(text.subrange(first + 1, second), u64::MAX as nat) == Some(
                version.minor as nat,
            )
            &&& parsed(text.skip(second + 1), u64::MAX as nat) == Some(version.patch as nat)
        }),
{
    let (a, b, c) = (
        decimal(version.major as nat),
        decimal(version.minor as nat),
        decimal(version.patch as nat),
    );
    let first = a.len() as int;
    let second = first + 1 + b.len();
    let text = version.written();
    lemma_decimal_reads_back(version.major as nat);
    lemma_decimal_reads_back(version.minor as nat);
    lemma_decimal_reads_back(version.patch as nat);
    assert(text.take(first) =~= a);
    assert(text.subrange(first + 1, second) =~= b);
    assert(text.skip(second + 1) =~= c);
}

// --- Messages between clients and their server -----------------------------------------------

/// What an agent says of itself when it joins a server's devices.
#[derive(Debug)]
pub struct Enrollment {
    pub token: String,
    pub name: String,
    pub os: String,
    pub version: String,
}

/// What a client asks of the server.
#[derive(Debug)]
pub enum ToServer {
    /// An agent wants to be found.
    Register { addresses: Vec<Address> },
    /// A viewer wants to be introduced.
    Connect { id: DeviceId, addresses: Vec<Address> },
    /// A viewer wants to be introduced, as the user whose token this is.
    ConnectAs { id: DeviceId, addresses: Vec<Address>, token: String },
    /// An agent wants to be managed.
    Enroll(Enrollment),
    /// An agent opened its way to a viewer.
    Ready { session: u64 },
    /// An agent will not take a viewer.
    Decline { session: u64 },
    /// An agent asks for something newer than it is.
    Update { product: String, platform: String, version: Version },
    /// An agent wants the package it was offered.
    Fetch,
}

/// What the server answers, or tells of itself.
#[derive(Debug)]
pub enum FromServer {
    Registered { id: DeviceId, observed: Address },
    Refused(Refusal),
    /// A viewer is coming from one of these addresses.
    Incoming { session: u64, addresses: Vec<Address> },
    /// The device's key, and where it may be reached.
    Peer { fingerprint: Fingerprint, addresses: Vec<Address> },
    /// A grant to present to the device.
    Granted(SignedGrant),
    Enrolled { id: DeviceId },
    /// A newer release, if there is one.
    Offered(Option<SignedRelease>),
}

}
