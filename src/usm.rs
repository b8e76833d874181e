use vstd::prelude::*;

verus! {

/// How far, in seconds, an agent's clock may stray from the one tracked
/// for it.
pub const TIME_WINDOW: u32 = 150;

/// Why a v3 answer was refused by the security model.
#[derive(Clone, Copy, Debug, PartialEq, Eq, Structural)]
pub enum SecurityError {
    /// The agent's boot count went down.
    BootsRegressed,
    /// The agent's clock is too far from the tracked one.
    NotInTimeWindow,
    /// The answer is not authenticated.
    Unauthenticated,
    /// The answer comes from another engine than the one discovered.
    UnknownEngine,
    /// The answer's authentication parameters do not match its content.
    WrongDigest,
}

/// The boot count and time that an answer may carry, given what is cached.
pub open spec fn timely(cached_boots: u32, expected_time: u32, boots: u32, time: u32) -> bool {
    boots >= cached_boots && -(TIME_WINDOW as int) <= time - expected_time <= TIME_WINDOW
}

/// Checks an answer's boot count and time against what is cached.
pub fn check_timeliness(cached_boots: u32, expected_time: u32, boots: u32, time: u32) -> (r: Result<
    (),
    SecurityError,
>)
    ensures
        timely(cached_boots, expected_time, boots, time) <==> r is Ok,
        boots < cached_boots ==> r == Err::<(), _>(SecurityError::BootsRegressed),
        boots >= cached_boots && !timely(cached_boots, expected_time, boots, time) ==> r == Err::<
            (),
            _,
        >(SecurityError::NotInTimeWindow),
{
    if boots < cached_boots {
        return Err(SecurityError::BootsRegressed);
    }
    let gap = if time >= expected_time {
        time - expected_time
    } else {
        expected_time - time
    };
    if gap > TIME_WINDOW {
        Err(SecurityError::NotInTimeWindow)
    } else {
        Ok(())
    }
}

/// The agent's clock as tracked: the cached time plus the seconds elapsed
/// since, at most `u32::MAX`.
pub open spec fn expected_time(time: u32, elapsed: u32) -> u32 {
    if time + elapsed > u32::MAX {
        u32::MAX
    } else {
        (time + elapsed) as u32
    }
}

/// What is cached of an agent's engine after discovery.
pub struct EngineState {
    engine_id: Vec<u8>,
    boots: u32,
    time: u32,
}

pub struct EngineView {
    pub engine_id: Seq<u8>,
    pub boots: u32,
    pub time: u32,
}

impl View for EngineState {
    type V = EngineView;

    closed spec fn view(&self) -> EngineView {
        EngineView { engine_id: self.engine_id@, boots: self.boots, time: self.time }
    }
}

impl EngineState {
    /// The state learnt from a discovery answer.
    pub fn new(engine_id: Vec<u8>, boots: u32, time: u32) -> (r: Self)
        ensures
            r@ == (EngineView { engine_id: engine_id@, boots, time }),
    {
        EngineState { engine_id, boots, time }
    }

    pub fn engine_id(&self) -> (r: &Vec<u8>)
        ensures
            r@ == self@.engine_id,
    {
        &self.engine_id
    }

    pub fn boots(&self) -> (r: u32)
        ensures
            r == self@.boots,
    {
        self.boots
    }

    pub fn time(&self) -> (r: u32)
        ensures
            r == self@.time,
    {
        self.time
    }

    /// Takes in the boot count and time of an authenticated answer, when
    /// `elapsed` seconds have passed since the cached time was learnt. A
    /// timely answer refreshes the cache; any other leaves it as it was.
    pub fn refresh(&mut self, elapsed: u32, boots: u32, time: u32) -> (r: Result<(), SecurityError>)
        ensures
            ({
                let expected = expected_time(old(self)@.time, elapsed);
                &&& r is Ok <==> timely(old(self)@.boots, expected, boots, time)
                &&& r is Ok ==> final(self)@ == (EngineView {
                    engine_id: old(self)@.engine_id,
                    boots,
                    time,
                })
                &&& r is Err ==> final(self)@ == old(self)@
            }),
    {
        let expected = self.time.saturating_add(elapsed);
        match check_timeliness(self.boots, expected, boots, time) {
            Ok(()) => {
                self.boots = boots;
                self.time = time;
                Ok(())
            },
            Err(e) => Err(e),
        }
    }
}

} // verus!
