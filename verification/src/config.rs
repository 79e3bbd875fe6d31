use vstd::prelude::*;
use vstd::string::StringExecFns;

use crate::error::ApplicationError;
use crate::text::{decimal, push_decimal};

verus! {

/// The ports that may be handed out: those of `ranges`, both ends included,
/// without those of `reserved`.
#[derive(Debug)]
pub struct Config {
    pub ranges: Vec<(u16, u16)>,
    pub reserved: Vec<u16>,
}

/// The ranges of a configuration that gives none.
pub fn default_ranges() -> (ranges: Vec<(u16, u16)>)
    ensures
        ranges@ == seq![(3000u16, 3999u16)],
{
    let mut ranges: Vec<(u16, u16)> = Vec::new();
    ranges.push((3000, 3999));
    assert(ranges@ =~= seq![(3000u16, 3999u16)]);
    ranges
}

impl Default for Config {
    fn default() -> (config: Self)
        ensures
            config.ranges@ == seq![(3000u16, 3999u16)],
            config.reserved@ == Seq::<u16>::empty(),
    {
        Config { ranges: default_ranges(), reserved: Vec::new() }
    }
}

/// What is wrong with the ranges of a configuration.
pub enum RangeProblem {
    /// There is no range.
    NoRange,
    /// The range at this place does not start below its end.
    NotAscending(int),
}

/// The first thing that is wrong with `ranges`, if any.
pub open spec fn range_problem(ranges: Seq<(u16, u16)>) -> Option<RangeProblem> {
    if ranges.len() == 0 {
        Some(RangeProblem::NoRange)
    } else if exists|k: int| 0 <= k < ranges.len() && (#[trigger] ranges[k]).0 >= ranges[k].1 {
        Some(
            RangeProblem::NotAscending(
                choose|k: int|
                    0 <= k < ranges.len() && (#[trigger] ranges[k]).0 >= ranges[k].1 && forall|j: int|
                        0 <= j < k ==> (#[trigger] ranges[j]).0 < ranges[j].1,
            ),
        )
    } else {
        None
    }
}

/// The message for a problem with `ranges`.
pub open spec fn range_problem_text(ranges: Seq<(u16, u16)>, problem: RangeProblem) -> Seq<char> {
    match problem {
        RangeProblem::NoRange => "Validation error: port ranges must not be empty\n"@,
        RangeProblem::NotAscending(k) => "Validation error at port range ("@ + decimal(
            ranges[k].0 as nat,
        ) + "-"@ + decimal(ranges[k].1 as nat) + "), start must be less than range end\n"@,
    }
}

/// The ports from `start` on, `count` of them, that are not in `reserved`, in
/// rising order.
pub open spec fn open_ports(start: int, count: nat, reserved: Seq<u16>) -> Seq<u16>
    decreases count,
{
    if count == 0 {
        Seq::empty()
    } else {
        let head = open_ports(start, (count - 1) as nat, reserved);
        let port = (start + count - 1) as u16;
        if reserved.contains(port) {
            head
        } else {
            head.push(port)
        }
    }
}

/// The number of ports from `start` to `end`, both included.
pub open spec fn span(start: u16, end: u16) -> nat {
    if start <= end {
        (end - start + 1) as nat
    } else {
        0
    }
}

/// The ports of `ranges`, range after range and in each range in rising
/// order, without those of `reserved`.
pub open spec fn valid_ports(ranges: Seq<(u16, u16)>, reserved: Seq<u16>) -> Seq<u16>
    decreases ranges.len(),
{
    if ranges.len() == 0 {
        Seq::empty()
    } else {
        valid_ports(ranges.drop_last(), reserved) + open_ports(
            ranges.last().0 as int,
            span(ranges.last().0, ranges.last().1),
            reserved,
        )
    }
}

/// The texts of `ranges`, each as `start-end`, with ` & ` between them.
pub open spec fn ranges_text(ranges: Seq<(u16, u16)>) -> Seq<char>
    decreases ranges.len(),
{
    if ranges.len() == 0 {
        Seq::empty()
    } else {
        let range = decimal(ranges.last().0 as nat) + "-"@ + decimal(ranges.last().1 as nat);
        if ranges.len() == 1 {
            range
        } else {
            ranges_text(ranges.drop_last()) + " & "@ + range
        }
    }
}

/// The ports of `reserved` in base ten, with `, ` between them.
pub open spec fn reserved_text(reserved: Seq<u16>) -> Seq<char>
    decreases reserved.len(),
{
    if reserved.len() == 0 {
        Seq::empty()
    } else if reserved.len() == 1 {
        decimal(reserved.last() as nat)
    } else {
        reserved_text(reserved.drop_last()) + ", "@ + decimal(reserved.last() as nat)
    }
}

/// The description of a configuration that is shown to the user.
pub open spec fn config_text(ranges: Seq<(u16, u16)>, reserved: Seq<u16>) -> Seq<char> {
    "Allowed port ranges: "@ + ranges_text(ranges) + if reserved.len() == 0 {
        Seq::empty()
    } else {
        "\nReserved ports: "@ + reserved_text(reserved)
    }
}

#[verifier::loop_isolation(false)]
fn is_reserved(reserved: &Vec<u16>, port: u16) -> (found: bool)
    ensures
        found == reserved@.contains(port),
{
    let mut i: usize = 0;
    while i < reserved.len()
        invariant
            i <= reserved.len(),
            forall|k: int| 0 <= k < i ==> reserved@[k] != port,
        decreases reserved.len() - i,
    {
        if reserved[i] == port {
            return true;
        }
        i += 1;
    }
    false
}

impl Config {
    /// A configuration of `ranges` and `reserved`, if the ranges are in order.
    ///
    /// Fails with `InvalidConfig` where there is no range, or where a range
    /// does not start below its end; the message names the first such range.
    #[verifier::loop_isolation(false)]
    pub fn from_parts(ranges: Vec<(u16, u16)>, reserved: Vec<u16>) -> (result: Result<
        Config,
        ApplicationError,
    >)
        ensures
            match range_problem(ranges@) {
                None => result matches Ok(config) && config.ranges@ == ranges@ && config.reserved@
                    == reserved@,
                Some(problem) => result matches Err(ApplicationError::InvalidConfig(message))
                    && message@ == range_problem_text(ranges@, problem),
            },
    {
        if ranges.len() == 0 {
            return Err(
                ApplicationError::InvalidConfig(
                    String::from_str("Validation error: port ranges must not be empty\n"),
                ),
            );
        }
        let mut k: usize = 0;
        while k < ranges.len()
            invariant
                k <= ranges.len(),
                forall|j: int| 0 <= j < k ==> (#[trigger] ranges@[j]).0 < ranges@[j].1,
            decreases ranges.len() - k,
        {
            let (start, end) = ranges[k];
            if start >= end {
                let mut message = String::from_str("Validation error at port range (");
                push_decimal(&mut message, start as u64);
                message.append("-");
                push_decimal(&mut message, end as u64);
                message.append("), start must be less than range end\n");
                proof {
                    let first = choose|first: int|
                        0 <= first < ranges@.len() && (#[trigger] ranges@[first]).0
                            >= ranges@[first].1 && forall|j: int|
                            0 <= j < first ==> (#[trigger] ranges@[j]).0 < ranges@[j].1;
                    assert(first == k) by {
                        if first < k {
                            assert(ranges@[first].0 < ranges@[first].1);
                        }
                        if k < first {
                            assert(ranges@[k as int].0 < ranges@[k as int].1);
                        }
                    }
                }
                return Err(ApplicationError::InvalidConfig(message));
            }
            k += 1;
        }
        Ok(Config { ranges, reserved })
    }

    /// The ports that may be handed out, in the order of the ranges.
    #[verifier::loop_isolation(false)]
    pub fn get_valid_ports(&self) -> (ports: Vec<u16>)
        ensures
            ports@ == valid_ports(self.ranges@, self.reserved@),
    {
        let mut ports: Vec<u16> = Vec::new();
        let mut r: usize = 0;
        while r < self.ranges.len()
            invariant
                r <= self.ranges.len(),
                ports@ == valid_ports(self.ranges@.take(r as int), self.reserved@),
            decreases self.ranges.len() - r,
        {
            let (start, end) = self.ranges[r];
            let ghost done = ports@;
            if start <= end {
                let mut next: u32 = start as u32;
                while next <= end as u32
                    invariant
                        start <= next <= end + 1,
                        ports@ == done + open_ports(
                            start as int,
                            (next - start) as nat,
                            self.reserved@,
                        ),
                    decreases end + 1 - next,
                {
                    let port = next as u16;
                    if !is_reserved(&self.reserved, port) {
                        ports.push(port);
                    }
                    assert(ports@ =~= done + open_ports(
                        start as int,
                        (next + 1 - start) as nat,
                        self.reserved@,
                    ));
                    next += 1;
                }
            } else {
                assert(ports@ =~= done + open_ports(start as int, 0, self.reserved@));
            }
            proof {
                assert(self.ranges@.take(r + 1).drop_last() == self.ranges@.take(r as int));
            }
            r += 1;
        }
        assert(self.ranges@.take(r as int) == self.ranges@);
        ports
    }

    /// The description of the configuration that is shown to the user.
    #[verifier::loop_isolation(false)]
    pub fn describe(&self) -> (text: String)
        ensures
            text@ == config_text(self.ranges@, self.reserved@),
    {
        let mut text = String::from_str("Allowed port ranges: ");
        let ghost start = text@;
        let mut r: usize = 0;
        while r < self.ranges.len()
            invariant
                r <= self.ranges.len(),
                text@ == start + ranges_text(self.ranges@.take(r as int)),
            decreases self.ranges.len() - r,
        {
            if r > 0 {
                text.append(" & ");
            }
            push_decimal(&mut text, self.ranges[r].0 as u64);
            text.append("-");
            push_decimal(&mut text, self.ranges[r].1 as u64);
            proof {
                assert(self.ranges@.take(r + 1).drop_last() == self.ranges@.take(r as int));
                assert(text@ =~= start + ranges_text(self.ranges@.take(r + 1)));
            }
            r += 1;
        }
        assert(self.ranges@.take(r as int) == self.ranges@);
        if self.reserved.len() > 0 {
            text.append("\nReserved ports: ");
            let ghost listed = text@;
            let mut k: usize = 0;
            while k < self.reserved.len()
                invariant
                    k <= self.reserved.len(),
                    text@ == listed + reserved_text(self.reserved@.take(k as int)),
                decreases self.reserved.len() - k,
            {
                if k > 0 {
                    text.append(", ");
                }
                push_decimal(&mut text, self.reserved[k] as u64);
                proof {
                    assert(self.reserved@.take(k + 1).drop_last() == self.reserved@.take(
                        k as int,
                    ));
                    assert(text@ =~= listed + reserved_text(self.reserved@.take(k + 1)));
                }
                k += 1;
            }
            assert(self.reserved@.take(k as int) == self.reserved@);
        }
        text
    }
}

} // verus!
