//! A bad network on one machine: a UDP forwarder between viewer and agent
//! with a bandwidth cap, a bounded queue, delay and loss, to exercise rate
//! control and repair.
//!
//! Each direction is a link of its own: packets queue for the bandwidth, a
//! packet that would wait longer than the queue is dropped (a tail-drop
//! bottleneck), and every packet then takes the delay more. Down is agent to
//! viewer, where the video goes. Times are microseconds on one clock.

use crate::net::Address;
use crate::text::{
    all_digits, chars_of, decimal, digit, is_digit, lemma_decimal_reads_back, lemma_number_grows,
    number, same_text,
};
use crate::viewer::pace::xorshift;
use vstd::prelude::*;

verus! {

/// One direction.
#[derive(Debug, Clone, Copy, PartialEq, Eq, Structural)]
pub struct Link {
    /// Zero means unlimited.
    pub kbps: u64,
    pub delay_ms: u64,
    pub queue_ms: u64,
    pub loss_percent: u64,
}

#[derive(Debug, Clone, Copy, PartialEq, Eq, Structural)]
pub struct Options {
    pub listen: Address,
    pub upstream: Address,
    pub down: Link,
    pub up: Link,
}

// --- The command line ------------------------------------------------------------------------

/// Why a text is not a number.
#[derive(Debug, Clone, Copy, PartialEq, Eq, Structural)]
pub enum NotNumber {
    Empty,
    Digit,
    TooLarge,
}

impl NotNumber {
    pub open spec fn says(&self) -> Seq<char> {
        match self {
            NotNumber::Empty => "cannot parse integer from empty string"@,
            NotNumber::Digit => "invalid digit found in string"@,
            NotNumber::TooLarge => "number too large to fit in target type"@,
        }
    }

    pub fn message(&self) -> (text: &'static str)
        ensures
            text@ == self.says(),
    {
        match self {
            NotNumber::Empty => "cannot parse integer from empty string",
            NotNumber::Digit => "invalid digit found in string",
            NotNumber::TooLarge => "number too large to fit in target type",
        }
    }
}

/// The number that digits from place `i` on make of `value`.
pub open spec fn number_from(s: Seq<char>, i: int, value: nat) -> Result<nat, NotNumber>
    decreases s.len() - i,
{
    if i >= s.len() {
        Ok(value)
    } else if !is_digit(s[i]) {
        Err(NotNumber::Digit)
    } else {
        let next = value * 10 + (s[i] as nat - 48) as nat;
        if next > u64::MAX {
            Err(NotNumber::TooLarge)
        } else {
            number_from(s, i + 1, next)
        }
    }
}

/// The number that a text is; it may start with a plus sign.
pub open spec fn number_in(s: Seq<char>) -> Result<nat, NotNumber> {
    if s.len() == 0 {
        Err(NotNumber::Empty)
    } else if s[0] == '+' {
        if s.len() == 1 {
            Err(NotNumber::Digit)
        } else {
            number_from(s, 1, 0)
        }
    } else {
        number_from(s, 0, 0)
    }
}

fn read_number(text: &str) -> (number: Result<u64, NotNumber>)
    ensures
        match number {
            Ok(n) => number_in(text@) == Ok::<nat, NotNumber>(n as nat),
            Err(why) => number_in(text@) == Err::<nat, NotNumber>(why),
        },
{
    let chars = chars_of(text);
    if chars.len() == 0 {
        return Err(NotNumber::Empty);
    }
    let mut i: usize = 0;
    if chars[0] == '+' {
        if chars.len() == 1 {
            return Err(NotNumber::Digit);
        }
        i = 1;
    }
    let mut value: u64 = 0;
    while i < chars.len()
        invariant
            i <= chars@.len(),
            chars@ == text@,
            number_in(text@) == number_from(text@, i as int, value as nat),
        decreases chars.len() - i,
    {
        let c = chars[i];
        if !digit(c) {
            return Err(NotNumber::Digit);
        }
        let next: u128 = value as u128 * 10 + (c as u8 - 48) as u128;
        if next > 0xffff_ffff_ffff_ffff {
            return Err(NotNumber::TooLarge);
        }
        value = next as u64;
        i = i + 1;
    }
    Ok(value)
}

/// What has been read of the command line.
#[derive(Debug, Clone, Copy, PartialEq, Eq, Structural)]
pub struct Given {
    pub listen: Option<Address>,
    pub upstream: Option<Address>,
    pub down_kbps: u64,
    pub up_kbps: u64,
    pub delay_ms: u64,
    pub queue_ms: u64,
    pub loss_percent: u64,
}

/// Nothing yet: no cap, no delay, no loss, and a queue of 100 ms.
pub open spec fn nothing_given() -> Given {
    Given {
        listen: None,
        upstream: None,
        down_kbps: 0,
        up_kbps: 0,
        delay_ms: 0,
        queue_ms: 100,
        loss_percent: 0,
    }
}

pub open spec fn is_flag(flag: Seq<char>) -> bool {
    ||| flag == "--listen"@
    ||| flag == "--upstream"@
    ||| flag == "--down-kbps"@
    ||| flag == "--up-kbps"@
    ||| flag == "--delay-ms"@
    ||| flag == "--queue-ms"@
    ||| flag == "--loss"@
}

/// What a flag and its value make of what was given before.
pub open spec fn with(given: Given, flag: Seq<char>, value: Seq<char>) -> Result<Given, Seq<char>> {
    if flag == "--listen"@ || flag == "--upstream"@ {
        match Address::read_from(value) {
            Some(address) => if flag == "--listen"@ {
                Ok(Given { listen: Some(address), ..given })
            } else {
                Ok(Given { upstream: Some(address), ..given })
            },
            None => Err(flag + ": invalid socket address syntax"@),
        }
    } else {
        match number_in(value) {
            Ok(n) => {
                let n = n as u64;
                if flag == "--down-kbps"@ {
                    Ok(Given { down_kbps: n, ..given })
                } else if flag == "--up-kbps"@ {
                    Ok(Given { up_kbps: n, ..given })
                } else if flag == "--delay-ms"@ {
                    Ok(Given { delay_ms: n, ..given })
                } else if flag == "--queue-ms"@ {
                    Ok(Given { queue_ms: n, ..given })
                } else {
                    Ok(
                        Given {
                            loss_percent: if n > 100 {
                                100
                            } else {
                                n
                            },
                            ..given
                        },
                    )
                }
            },
            Err(why) => Err(flag + ": "@ + why.says()),
        }
    }
}

fn set(given: Given, flag: &str, value: &str) -> (read: Result<Given, String>)
    requires
        is_flag(flag@),
    ensures
        match read {
            Ok(read) => with(given, flag@, value@) == Ok::<Given, Seq<char>>(read),
            Err(why) => with(given, flag@, value@) == Err::<Given, Seq<char>>(why@),
        },
{
    let listen = same_text(flag, "--listen");
    if listen || same_text(flag, "--upstream") {
        return match Address::parse(&chars_of(value)) {
            Some(address) => if listen {
                Ok(Given { listen: Some(address), ..given })
            } else {
                Ok(Given { upstream: Some(address), ..given })
            },
            None => {
                let mut why = flag.to_owned();
                why.append(": invalid socket address syntax");
                Err(why)
            },
        };
    }
    let n: u64 = match read_number(value) {
        Ok(n) => n,
        Err(not) => {
            let mut why = flag.to_owned();
            why.append(": ");
            why.append(not.message());
            return Err(why);
        },
    };
    if same_text(flag, "--down-kbps") {
        Ok(Given { down_kbps: n, ..given })
    } else if same_text(flag, "--up-kbps") {
        Ok(Given { up_kbps: n, ..given })
    } else if same_text(flag, "--delay-ms") {
        Ok(Given { delay_ms: n, ..given })
    } else if same_text(flag, "--queue-ms") {
        Ok(Given { queue_ms: n, ..given })
    } else {
        let loss_percent: u64 = if n > 100 {
            100
        } else {
            n
        };
        Ok(Given { loss_percent, ..given })
    }
}

/// What the arguments from place `i` on make of what was given before.
pub open spec fn given_by(args: Seq<String>, i: int, given: Given) -> Result<Given, Seq<char>>
    decreases args.len() - i,
{
    if i >= args.len() {
        Ok(given)
    } else if !is_flag(args[i]@) {
        Err("unknown option "@ + args[i]@)
    } else if i + 1 >= args.len() {
        Err(args[i]@ + " needs a value"@)
    } else {
        match with(given, args[i]@, args[i + 1]@) {
            Ok(more) => given_by(args, i + 2, more),
            Err(why) => Err(why),
        }
    }
}

/// The options that the arguments give.
pub open spec fn options_in(args: Seq<String>) -> Result<Options, Seq<char>> {
    match given_by(args, 0, nothing_given()) {
        Ok(given) => match (given.listen, given.upstream) {
            (Some(listen), Some(upstream)) => {
                let down = Link {
                    kbps: given.down_kbps,
                    delay_ms: given.delay_ms,
                    queue_ms: given.queue_ms,
                    loss_percent: given.loss_percent,
                };
                Ok(Options { listen, upstream, down, up: Link { kbps: given.up_kbps, ..down } })
            },
            (None, _) => Err("--listen is required"@),
            (Some(_), None) => Err("--upstream is required"@),
        },
        Err(why) => Err(why),
    }
}

fn known_flag(flag: &str) -> (yes: bool)
    ensures
        yes == is_flag(flag@),
{
    same_text(flag, "--listen") || same_text(flag, "--upstream") || same_text(flag, "--down-kbps")
        || same_text(flag, "--up-kbps") || same_text(flag, "--delay-ms") || same_text(
        flag,
        "--queue-ms",
    ) || same_text(flag, "--loss")
}

/// Read the command line.
pub fn parse(args: &[String]) -> (options: Result<Options, String>)
    ensures
        match options {
            Ok(options) => options_in(args@) == Ok::<Options, Seq<char>>(options),
            Err(why) => options_in(args@) == Err::<Options, Seq<char>>(why@),
        },
{
    let mut given = Given {
        listen: None,
        upstream: None,
        down_kbps: 0,
        up_kbps: 0,
        delay_ms: 0,
        queue_ms: 100,
        loss_percent: 0,
    };
    let mut i: usize = 0;
    while i < args.len()
        invariant
            i <= args@.len(),
            given_by(args@, 0, nothing_given()) == given_by(args@, i as int, given),
        decreases args.len() - i,
    {
        let flag = args[i].as_str();
        if !known_flag(flag) {
            let mut why = "unknown option ".to_owned();
            why.append(flag);
            return Err(why);
        }
        if args.len() - i < 2 {
            let mut why = flag.to_owned();
            why.append(" needs a value");
            return Err(why);
        }
        match set(given, flag, &args[i + 1]) {
            Ok(more) => {
                given = more;
            },
            Err(why) => {
                return Err(why);
            },
        }
        i = i + 2;
    }
    let listen = match given.listen {
        Some(listen) => listen,
        None => {
            return Err("--listen is required".to_owned());
        },
    };
    let upstream = match given.upstream {
        Some(upstream) => upstream,
        None => {
            return Err("--upstream is required".to_owned());
        },
    };
    let down = Link {
        kbps: given.down_kbps,
        delay_ms: given.delay_ms,
        queue_ms: given.queue_ms,
        loss_percent: given.loss_percent,
    };
    Ok(Options { listen, upstream, down, up: Link { kbps: given.up_kbps, ..down } })
}

// --- The link --------------------------------------------------------------------------------

/// Loss for a test tool does not need a real random number generator.
#[derive(Debug, Clone, Copy)]
pub struct Dice {
    pub state: u64,
}

impl Dice {
    pub fn new(seed: u64) -> (dice: Dice)
        ensures
            dice.state == seed | 1,
    {
        Dice { state: seed | 1 }
    }

    /// A number below a hundred.
    pub fn roll(&mut self) -> (n: u64)
        ensures
            final(self).state == xorshift(old(self).state),
            n == final(self).state % 100,
    {
        let a: u64 = self.state ^ (self.state << 13u64);
        let b: u64 = a ^ (a >> 7u64);
        self.state = b ^ (b << 17u64);
        self.state % 100
    }
}

/// One direction at work.
#[derive(Debug, Clone, Copy)]
pub struct Shaper {
    pub link: Link,
    /// When the link has sent what it took.
    pub free_at: u64,
    pub dice: Dice,
}

/// How long a packet of so many bytes is on a link that is not unlimited.
pub open spec fn transmission(link: Link, bytes: nat) -> int {
    (bytes * 8 * 1000) as int / link.kbps as int
}

/// When a link takes a packet that arrives: once it has sent what it took.
pub open spec fn start(free_at: u64, arrived: u64) -> u64 {
    if free_at > arrived {
        free_at
    } else {
        arrived
    }
}

/// When a packet that arrives now has left the link, if it may queue.
pub open spec fn departure(link: Link, free_at: u64, arrived: u64, bytes: nat) -> Option<int> {
    if link.kbps == 0 {
        Some(arrived as int)
    } else {
        let left = start(free_at, arrived) + transmission(link, bytes);
        if left - arrived > link.queue_ms * 1000 {
            None
        } else {
            Some(left)
        }
    }
}

impl Shaper {
    /// What `pass` does.
    pub open spec fn passes(
        before: Shaper,
        after: Shaper,
        arrived: u64,
        bytes: nat,
        left: Option<u64>,
    ) -> bool {
        &&& after.link == before.link
        &&& match departure(before.link, before.free_at, arrived, bytes) {
            None => {
                &&& left is None
                &&& after.free_at == before.free_at
                &&& after.dice == before.dice
            },
            Some(at) => {
                &&& after.free_at == (if before.link.kbps == 0 {
                    before.free_at as int
                } else {
                    at
                })
                &&& after.dice.state == xorshift(before.dice.state)
                &&& if after.dice.state % 100 < before.link.loss_percent {
                    left is None
                } else {
                    left matches Some(left) && left == at
                }
            },
        }
    }

    pub fn new(link: Link, now: u64, dice: Dice) -> (shaper: Shaper)
        ensures
            shaper.link == link,
            shaper.free_at == now,
            shaper.dice == dice,
    {
        Shaper { link, free_at: now, dice }
    }

    /// Pass a packet through: wait for the bandwidth, drop what would queue
    /// too long or what the dice say. When it has left the link, if it was
    /// not dropped; the link's delay comes on top.
    pub fn pass(&mut self, arrived: u64, bytes: usize) -> (left: Option<u64>)
        requires
            bytes * 8_000 <= u64::MAX,
            old(self).link.kbps > 0 ==> start(old(self).free_at, arrived) + transmission(
                old(self).link,
                bytes as nat,
            ) <= u64::MAX,
        ensures
            Shaper::passes(*old(self), *final(self), arrived, bytes as nat, left),
    {
        let depart: u64 = if self.link.kbps == 0 {
            arrived
        } else {
            let start: u64 = if self.free_at > arrived {
                self.free_at
            } else {
                arrived
            };
            let bits: u64 = bytes as u64 * 8;
            let sending: u64 = bits * 1000 / self.link.kbps;
            assert(sending <= bits * 1000) by (nonlinear_arith)
                requires
                    sending == (bits * 1000) / self.link.kbps as int,
                    self.link.kbps > 0,
            ;
            let depart: u64 = start + sending;
            if (depart - arrived) as u128 > self.link.queue_ms as u128 * 1000 {
                return None;
            }
            self.free_at = depart;
            depart
        };
        if self.dice.roll() < self.link.loss_percent {
            None
        } else {
            Some(depart)
        }
    }
}

/// No packet waits longer than the queue.
pub proof fn lemma_the_queue_is_bounded(link: Link, free_at: u64, arrived: u64, bytes: nat)
    requires
        departure(link, free_at, arrived, bytes) is Some,
    ensures
        departure(link, free_at, arrived, bytes)->Some_0 - arrived <= link.queue_ms * 1000,
{
}

/// Packets leave in the order they come: one that comes later leaves no
/// earlier than one before it.
pub proof fn lemma_packets_stay_in_order(
    link: Link,
    free_at: u64,
    first: u64,
    first_bytes: nat,
    second: u64,
    second_bytes: nat,
)
    requires
        first <= second,
        departure(link, free_at, first, first_bytes) matches Some(left) && left <= u64::MAX,
        ({
            let left = departure(link, free_at, first, first_bytes)->Some_0;
            let free_at = if link.kbps == 0 {
                free_at
            } else {
                left as u64
            };
            departure(link, free_at, second, second_bytes) is Some
        }),
    ensures
        ({
            let left = departure(link, free_at, first, first_bytes)->Some_0;
            let then_free = if link.kbps == 0 {
                free_at
            } else {
                left as u64
            };
            left <= departure(link, then_free, second, second_bytes)->Some_0
        }),
{
    if link.kbps > 0 {
        assert(transmission(link, first_bytes) >= 0 && transmission(link, second_bytes) >= 0)
            by (nonlinear_arith)
            requires
                transmission(link, first_bytes) == (first_bytes * 8 * 1000) as int
                    / link.kbps as int,
                transmission(link, second_bytes) == (second_bytes * 8 * 1000) as int
                    / link.kbps as int,
                link.kbps > 0,
                first_bytes >= 0,
                second_bytes >= 0,
        ;
    }
}

/// A link takes a packet's bits one after the other: at so many thousand bits a
/// second, eight to a byte. One without a limit takes no time.
pub proof fn lemma_a_link_takes_its_time(link: Link, free_at: u64, arrived: u64, bytes: nat)
    ensures
        link.kbps == 0 ==> departure(link, free_at, arrived, bytes) == Some(arrived as int),
        link.kbps > 0 ==> {
            let began = if free_at > arrived {
                free_at as int
            } else {
                arrived as int
            };
            &&& departure(link, free_at, arrived, bytes) matches Some(left) ==> {
                &&& (left - began) * link.kbps <= bytes * 8000
                &&& bytes * 8000 < (left - began + 1) * link.kbps
                &&& left - arrived <= link.queue_ms * 1000
            }
            &&& departure(link, free_at, arrived, bytes) is None ==> began + transmission(
                link,
                bytes,
            ) - arrived > link.queue_ms * 1000
        },
{
    if link.kbps > 0 {
        let bits = (bytes * 8 * 1000) as int;
        let kbps = link.kbps as int;
        let t = transmission(link, bytes);
        assert(t * kbps <= bits < (t + 1) * kbps) by (nonlinear_arith)
            requires
                t == bits / kbps,
                kbps > 0,
        ;
    }
}

/// What is dropped for want of room takes no time on the link, and no dice are
/// rolled for it; on a link without loss nothing else is lost, and on one that
/// loses all nothing comes through.
pub proof fn lemma_only_lossy_links_lose(
    before: Shaper,
    after: Shaper,
    arrived: u64,
    bytes: nat,
    left: Option<u64>,
)
    requires
        Shaper::passes(before, after, arrived, bytes, left),
    ensures
        after.link == before.link,
        departure(before.link, before.free_at, arrived, bytes) is None ==> left is None
            && after.free_at == before.free_at && after.dice == before.dice,
        before.link.loss_percent == 0 ==> match departure(
            before.link,
            before.free_at,
            arrived,
            bytes,
        ) {
            Some(at) => left matches Some(left) && left == at,
            None => left is None,
        },
        before.link.loss_percent >= 100 ==> left is None,
        left matches Some(left) ==> (before.link.kbps > 0 ==> after.free_at == left),
        before.link.kbps == 0 ==> after.free_at == before.free_at,
{
}

/// Each option says its own thing, and nothing of the others; loss is no more
/// than all.
pub proof fn lemma_options_say_what_they_are_called(
    given: Given,
    flag: Seq<char>,
    value: Seq<char>,
    read: Given,
)
    requires
        is_flag(flag),
        with(given, flag, value) == Ok::<Given, Seq<char>>(read),
    ensures
        flag == "--listen"@ ==> read == (Given { listen: Address::read_from(value), ..given }),
        flag == "--upstream"@ ==> read == (Given { upstream: Address::read_from(value), ..given }),
        flag == "--down-kbps"@ ==> read == (Given {
            down_kbps: number_in(value)->Ok_0 as u64,
            ..given
        }),
        flag == "--up-kbps"@ ==> read == (Given { up_kbps: number_in(value)->Ok_0 as u64, ..given }),
        flag == "--delay-ms"@ ==> read == (Given {
            delay_ms: number_in(value)->Ok_0 as u64,
            ..given
        }),
        flag == "--queue-ms"@ ==> read == (Given {
            queue_ms: number_in(value)->Ok_0 as u64,
            ..given
        }),
        flag == "--loss"@ ==> read.loss_percent <= 100 && read == (Given {
            loss_percent: read.loss_percent,
            ..given
        }),
{
    reveal_strlit("--listen");
    reveal_strlit("--upstream");
    reveal_strlit("--down-kbps");
    reveal_strlit("--up-kbps");
    reveal_strlit("--delay-ms");
    reveal_strlit("--queue-ms");
    reveal_strlit("--loss");
    assert("--listen"@[2] == 'l' && "--listen"@.len() == 8);
    assert("--upstream"@[2] == 'u' && "--upstream"@.len() == 10);
    assert("--down-kbps"@[2] == 'd' && "--down-kbps"@.len() == 11);
    assert("--up-kbps"@[2] == 'u' && "--up-kbps"@.len() == 9);
    assert("--delay-ms"@[2] == 'd' && "--delay-ms"@.len() == 10);
    assert("--queue-ms"@[2] == 'q');
    assert("--loss"@[2] == 'l' && "--loss"@.len() == 6);
}

/// A number is read as it is written, with or without a plus sign.
pub proof fn lemma_numbers_read_back(n: u64)
    ensures
        number_in(decimal(n as nat)) == Ok::<nat, NotNumber>(n as nat),
        number_in(seq!['+'] + decimal(n as nat)) == Ok::<nat, NotNumber>(n as nat),
{
    lemma_decimal_reads_back(n as nat);
    let s = decimal(n as nat);
    assert(is_digit(s[0]));
    assert(s.skip(0) =~= s);
    lemma_digits_read(s, s, 0, 0);
    let signed = seq!['+'] + s;
    assert(signed.skip(1) =~= s);
    lemma_digits_read(signed, s, 1, 0);
}

proof fn lemma_digits_read(s: Seq<char>, digits: Seq<char>, sign: int, i: int)
    requires
        sign >= 0 && sign <= s.len() && s.skip(sign) == digits,
        all_digits(digits),
        number(digits) <= u64::MAX,
        0 <= i <= digits.len(),
    ensures
        number_from(s, sign + i, number(digits.take(i))) == Ok::<nat, NotNumber>(number(digits)),
    decreases digits.len() - i,
{
    if i == digits.len() {
        assert(digits.take(i) =~= digits);
    } else {
        assert(digits[i] == s[sign + i]);
        assert(is_digit(digits[i]));
        lemma_number_grows(digits, i + 1);
        assert(digits.take(i + 1).drop_last() =~= digits.take(i));
        lemma_digits_read(s, digits, sign, i + 1);
    }
    assert(digits.take(0) =~= Seq::empty());
}

/// The video's link is capped by what is given for down, the other by what is
/// given for up; delay, queue and loss are of both.
pub proof fn lemma_links_are_as_given(args: Seq<String>, options: Options)
    requires
        options_in(args) == Ok::<Options, Seq<char>>(options),
    ensures
        given_by(args, 0, nothing_given()) matches Ok(given) && {
            &&& Some(options.listen) == given.listen && Some(options.upstream) == given.upstream
            &&& options.down.kbps == given.down_kbps && options.up.kbps == given.up_kbps
            &&& options.down.delay_ms == given.delay_ms && options.up.delay_ms == given.delay_ms
            &&& options.down.queue_ms == given.queue_ms && options.up.queue_ms == given.queue_ms
            &&& options.down.loss_percent == given.loss_percent && options.up.loss_percent
                == given.loss_percent
        },
        nothing_given().queue_ms == 100 && nothing_given().delay_ms == 0
            && nothing_given().loss_percent == 0 && nothing_given().down_kbps == 0
            && nothing_given().up_kbps == 0 && nothing_given().listen is None
            && nothing_given().upstream is None,
{
}

}
