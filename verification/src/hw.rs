//! How many threads and workers the onnx models get on this machine: one run on all the
//! cores (dictation, diarization, Whisper), or many independent runs of one thread each
//! (file recognition). Logical (SMT) cores are not counted: the runtime does not gain from
//! them. The counts are read by the caller.
use vstd::prelude::*;

use crate::models::Platform;

verus! {

/// Physical cores (all of them on hybrid CPUs, P and E); the logical count when unknown.
pub fn physical_cores(physical: Option<usize>, logical: usize) -> (n: usize)
    ensures
        n == (match physical {
            Some(p) => if p > 0 { p } else { logical },
            None => logical,
        }),
{
    match physical {
        Some(p) => if p > 0 { p } else { logical },
        None => logical,
    }
}

/// Logical cores, four when the system does not say.
pub fn logical_cores(available: Option<usize>) -> (n: usize)
    ensures
        n == (match available {
            Some(a) => a,
            None => 4,
        }),
{
    match available {
        Some(a) => a,
        None => 4,
    }
}

pub open spec fn clamp16(n: int) -> int {
    if n < 1 {
        1
    } else if n > 16 {
        16
    } else {
        n
    }
}

/// Threads of one recognizer run. On Apple Silicon only the performance cores: efficiency
/// cores make the fast ones wait at every barrier. Between 1 and 16.
pub fn ort_threads(platform: Platform, physical: usize, perf_cores: Option<usize>) -> (t: i32)
    ensures
        t == (if (platform == Platform::MacArm || platform == Platform::MacIntel) && perf_cores is Some {
            clamp16(perf_cores->0 as int)
        } else {
            clamp16(physical as int)
        }),
{
    let n = match perf_cores {
        Some(p) => if platform == Platform::MacArm || platform == Platform::MacIntel { p } else { physical },
        None => physical,
    };
    if n < 1 {
        1
    } else if n > 16 {
        16
    } else {
        n as i32
    }
}

/// Parallel file recognizers, one thread each: the physical cores, between 1 and 16.
pub fn asr_workers(physical: usize) -> (n: usize)
    ensures
        n == clamp16(physical as int),
{
    if physical < 1 {
        1
    } else if physical > 16 {
        16
    } else {
        physical
    }
}

/// The performance-core count read from the system: present when the query succeeded and
/// gave a positive number.
pub fn perf_cores(status: i32, value: i32) -> (r: Option<usize>)
    ensures
        r == (if status == 0 && value > 0 { Some(value as usize) } else { None::<usize> }),
{
    if status == 0 && value > 0 {
        Some(value as usize)
    } else {
        None
    }
}

} // verus!
