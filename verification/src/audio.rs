//! What decides whether an audio device is used: how it is described, how long it may
//! take to deliver, and what is reported if no device can be used.
use vstd::prelude::*;
use vstd::string::*;

use crate::model::{ChannelRoute, FFT_SIZE};
use crate::pipeline::start_cancelled;
use crate::source::{AudioInfo, OpenedSource};

verus! {

/// What is known of a device before its stream is built.
pub fn describe_input(
    host_name: String,
    device_name: String,
    sample_rate: u32,
    channels: usize,
) -> (info: AudioInfo)
    ensures
        info.host_name == host_name,
        info.device_name == device_name,
        info.sample_rate == sample_rate,
        info.channels == channels,
        info.initial_route == ChannelRoute::spec_default_for_channels(channels),
{
    AudioInfo {
        host_name,
        device_name,
        sample_rate,
        channels,
        initial_route: ChannelRoute::default_for_channels(channels),
    }
}

/// Message for a stream that is too slow.
pub open spec fn delivery_timeout() -> Seq<char> {
    "input stream did not deliver a complete analysis window within two seconds"@
}

/// How many frames arrived between two readings of a total that wraps around.
pub open spec fn frames_between(before: u64, now: u64) -> int {
    (now - before) % 0x1_0000_0000_0000_0000
}

/// Whether to go on waiting for a stream that was started. It is used as soon as the
/// frames of one window have arrived. Until that, it may be called off or be too late.
pub fn startup_outcome(
    received_before: u64,
    received_now: u64,
    cancelled: bool,
    past_deadline: bool,
) -> (outcome: Option<Result<(), String>>)
    ensures
        ({
            let delivered = frames_between(received_before, received_now) >= FFT_SIZE;
            match outcome {
                Some(Ok(_)) => delivered,
                Some(Err(message)) => {
                    ||| !delivered && cancelled && message@ == start_cancelled()
                    ||| !delivered && !cancelled && past_deadline && message@ == delivery_timeout()
                },
                None => !delivered && !cancelled && !past_deadline,
            }
        }),
{
    if received_now.wrapping_sub(received_before) >= FFT_SIZE as u64 {
        return Some(Ok(()));
    }
    if cancelled {
        return Some(Err("input start cancelled".to_owned()));
    }
    if past_deadline {
        return Some(
            Err(
                "input stream did not deliver a complete analysis window within two seconds".to_owned(),
            ),
        );
    }
    None
}

/// What is noted of a host that could not be used.
pub open spec fn failure_entry(host_name: Seq<char>, error: Seq<char>) -> Seq<char> {
    host_name + ": "@ + error
}

/// The entries, with a separator between each two.
pub open spec fn joined(entries: Seq<Seq<char>>) -> Seq<char>
    decreases entries.len(),
{
    if entries.len() == 0 {
        Seq::empty()
    } else if entries.len() == 1 {
        entries[0]
    } else {
        joined(entries.drop_last()) + " | "@ + entries.last()
    }
}

/// Message for a search that found no input.
pub open spec fn search_failure(entries: Seq<Seq<char>>) -> Seq<char> {
    "No usable input stream was found. "@ + joined(entries)
}

/// The search for an input, host by host.
pub struct HostSearch {
    failures: Vec<String>,
}

impl HostSearch {
    /// What was noted of the hosts that could not be used, in the order in which they
    /// were tried.
    pub closed spec fn entries(self) -> Seq<Seq<char>> {
        self.failures@.map_values(|entry: String| entry@)
    }

    pub fn new() -> (search: HostSearch)
        ensures
            search.entries() == Seq::<Seq<char>>::empty(),
    {
        let search = HostSearch { failures: Vec::new() };
        assert(search.entries() =~= Seq::<Seq<char>>::empty());
        search
    }

    /// Whether to try another host.
    pub fn proceed(&self, cancelled: bool) -> (result: Result<(), String>)
        ensures
            result is Ok <==> !cancelled,
            result matches Err(message) ==> message@ == start_cancelled(),
    {
        if cancelled {
            Err("input start cancelled".to_owned())
        } else {
            Ok(())
        }
    }

    /// Takes up what trying a host came to: the first input that could be opened is
    /// used, and the reason of each failure is noted.
    pub fn tried(&mut self, host_name: &str, result: Result<OpenedSource, String>) -> (found: Option<
        OpenedSource,
    >)
        ensures
            match result {
                Ok(source) => found == Some(source) && final(self).entries() == old(
                    self,
                ).entries(),
                Err(error) => found is None && final(self).entries() == old(self).entries().push(
                    failure_entry(host_name@, error@),
                ),
            },
    {
        match result {
            Ok(source) => Some(source),
            Err(error) => {
                let mut entry = host_name.to_owned();
                entry.append(": ");
                entry.append(error.as_str());
                self.failures.push(entry);
                assert(self.entries() =~= old(self).entries().push(
                    failure_entry(host_name@, error@),
                ));
                None
            },
        }
    }

    /// What is reported when there is no host left.
    pub fn report(&self) -> (message: String)
        ensures
            message@ == search_failure(self.entries()),
    {
        let mut message = "No usable input stream was found. ".to_owned();
        let ghost intro = message@;
        assert(intro + joined(self.entries().take(0)) =~= intro);
        for index in 0..self.failures.len()
            invariant
                message@ == intro + joined(self.entries().take(index as int)),
                self.entries().len() == self.failures@.len(),
        {
            proof {
                let next = self.entries().take(index + 1);
                assert(next.drop_last() =~= self.entries().take(index as int));
                assert(next.last() == self.failures@[index as int]@);
            }
            let ghost before = message@;
            if index > 0 {
                message.append(" | ");
            }
            message.append(self.failures[index].as_str());
            proof {
                let entry = self.failures@[index as int]@;
                let rest = joined(self.entries().take(index as int));
                if index > 0 {
                    assert(intro + rest + " | "@ + entry =~= intro + (rest + " | "@ + entry));
                } else {
                    assert(rest =~= Seq::<char>::empty());
                    assert(intro + rest + entry =~= intro + entry);
                }
            }
        }
        assert(self.entries().take(self.failures@.len() as int) =~= self.entries());
        message
    }
}

/// The frames between two readings are those that have to be counted on from the first one
/// to come to the second one, also where the total wraps around.
pub proof fn the_frames_between_lead_from_one_to_the_other(before: u64, now: u64)
    ensures
        0 <= frames_between(before, now) < 0x1_0000_0000_0000_0000,
        (before + frames_between(before, now)) % 0x1_0000_0000_0000_0000 == now,
        before <= now ==> frames_between(before, now) == now - before,
{
}

/// Every host that failed is in the report, with its reason, in the order in which the hosts
/// were tried.
pub proof fn every_failure_is_reported(entries: Seq<Seq<char>>, i: int) -> (at: int)
    requires
        0 <= i < entries.len(),
    ensures
        0 <= at <= at + entries[i].len() <= joined(entries).len(),
        joined(entries).subrange(at, at + entries[i].len()) == entries[i],
        i == 0 ==> at == 0,
        i < entries.len() - 1 ==> at + entries[i].len() + 3 <= joined(entries).len()
            && joined(entries).subrange(at + entries[i].len(), at + entries[i].len() + 3)
            == " | "@,
        i == entries.len() - 1 ==> at + entries[i].len() == joined(entries).len(),
        search_failure(entries) == "No usable input stream was found. "@ + joined(entries),
    decreases entries.len(),
{
    if entries.len() == 1 {
        assert(joined(entries).subrange(0, entries[0].len() as int) =~= entries[0]);
        0
    } else if i == entries.len() - 1 {
        let at = joined(entries).len() - entries[i].len();
        assert(joined(entries).subrange(at, at + entries[i].len()) =~= entries[i]);
        at
    } else {
        let earlier = entries.drop_last();
        let at = every_failure_is_reported(earlier, i);
        assert(earlier[i] == entries[i]);
        let end = at + entries[i].len();
        reveal_strlit(" | ");
        if i == earlier.len() - 1 {
            assert(joined(entries).subrange(end, end + 3) =~= " | "@);
        } else {
            assert(joined(entries).subrange(end, end + 3) =~= joined(earlier).subrange(
                end,
                end + 3,
            ));
        }
        assert(joined(entries).subrange(at, at + entries[i].len()) =~= joined(earlier).subrange(
            at,
            at + entries[i].len(),
        ));
        at
    }
}

/// What is noted of a host is its name, and what went wrong behind it.
pub proof fn an_entry_names_the_host_and_the_error(host_name: Seq<char>, error: Seq<char>)
    ensures
        ({
            let entry = failure_entry(host_name, error);
            &&& entry.len() == host_name.len() + 2 + error.len()
            &&& entry.subrange(0, host_name.len() as int) == host_name
            &&& entry.subrange(host_name.len() as int + 2, entry.len() as int) == error
            &&& entry[host_name.len() as int] == ':' && entry[host_name.len() as int + 1] == ' '
        }),
{
    reveal_strlit(": ");
    let entry = failure_entry(host_name, error);
    assert(entry.subrange(0, host_name.len() as int) =~= host_name);
    assert(entry.subrange(host_name.len() as int + 2, entry.len() as int) =~= error);
}

} // verus!
