//! Temperature sensor readings from the hwmon devices of sysfs.

use crate::error::Error;
use crate::gpu::{ends_with, file_i64, opt_view, GpuCollector};
use crate::text::{chars_of, has_prefix_at, push_all, starts_with, string_from_chars, trim, trim_span};
use vstd::prelude::*;

verus! {

/// The sensor index in a hwmon file name such as `temp1_input` (`1`), for
/// names that start with `temp` and end with `_input`.
pub open spec fn sensor_index_of(name: Seq<char>) -> Option<Seq<char>> {
    if starts_with(name, seq!['t', 'e', 'm', 'p']) && ends_with(name, seq!['_', 'i', 'n', 'p', 'u', 't']) {
        if name.len() >= 10 {
            Some(name.subrange(4, name.len() - 6))
        } else {
            Some(Seq::empty())
        }
    } else {
        None
    }
}

/// One sensor's reading, in millidegrees Celsius.
#[derive(Debug, Clone)]
pub struct SensorReading {
    pub label: String,
    pub device: String,
    pub temp_millidegrees: i64,
    pub critical_millidegrees: Option<i64>,
    pub high_millidegrees: Option<i64>,
}

/// The label of a sensor: its trimmed `temp{index}_label` file, or
/// `temp{index}` when there is none.
pub open spec fn sensor_label(index: Seq<char>, label: Option<Seq<char>>) -> Seq<char> {
    match label {
        Some(l) => trim(l),
        None => seq!['t', 'e', 'm', 'p'] + index,
    }
}

/// Temperature sensor collector.
#[derive(Debug)]
pub struct TempCollector;

impl TempCollector {
    /// Create a new temperature collector.
    pub fn new() -> (r: Result<Self, Error>)
        ensures
            r is Ok,
    {
        Ok(TempCollector)
    }

    /// The index of the sensor a hwmon file name holds the input of.
    pub fn sensor_index(file_name: &str) -> (r: Option<String>)
        ensures
            match sensor_index_of(file_name@) {
                Some(i) => r is Some && r->0@ == i,
                None => r is None,
            },
    {
        let t = chars_of(file_name);
        let n = t.len();
        proof {
            assert(t@.subrange(0, n as int) =~= t@);
        }
        let temp = vec!['t', 'e', 'm', 'p'];
        let input = vec!['_', 'i', 'n', 'p', 'u', 't'];
        if !has_prefix_at(&t, 0, n, &temp) {
            return None;
        }
        if n < 6 || !has_prefix_at(&t, n - 6, n, &input) {
            proof {
                if n >= 6 {
                    assert(t@.subrange(n - 6, n as int).take(6) =~= t@.skip(n - 6));
                }
            }
            return None;
        }
        proof {
            assert(t@.subrange(n - 6, n as int).take(6) =~= t@.skip(n - 6));
        }
        let mut r: Vec<char> = Vec::new();
        if n >= 10 {
            let mut i: usize = 4;
            while i < n - 6
                invariant
                    n == t@.len(),
                    n >= 10,
                    4 <= i <= n - 6,
                    r@ == t@.subrange(4, i as int),
                decreases n - 6 - i,
            {
                r.push(t[i]);
                i = i + 1;
                proof {
                    assert(r@ =~= t@.subrange(4, i as int));
                }
            }
        }
        proof {
            if n < 10 {
                assert(r@ =~= Seq::<char>::empty());
            }
        }
        Some(string_from_chars(&r))
    }

    /// Read a single temperature sensor from its files: `temp{index}_input`,
    /// `temp{index}_label`, `temp{index}_crit` and `temp{index}_max` (each
    /// `None` when it could not be read). There is no reading when the input
    /// file does not read as a number.
    pub fn read_sensor(index: &str, device_name: &str, input: Option<&str>, label: Option<&str>, crit: Option<&str>, max: Option<&str>) -> (r: Option<SensorReading>)
        ensures
            match file_i64(opt_view(input)) {
                Some(t) => r is Some && {
                    let s = r->0;
                    &&& s.temp_millidegrees == t
                    &&& s.label@ == sensor_label(index@, opt_view(label))
                    &&& s.device@ == device_name@
                    &&& s.critical_millidegrees == file_i64(opt_view(crit))
                    &&& s.high_millidegrees == file_i64(opt_view(max))
                },
                None => r is None,
            },
    {
        let temp = match GpuCollector::read_file_i64(input) {
            Some(t) => t,
            None => {
                return None;
            },
        };
        let label_text = match label {
            Some(l) => {
                let c = chars_of(l);
                let (a, b) = trim_span(&c, 0, c.len());
                proof {
                    assert(c@.subrange(0, c@.len() as int) =~= c@);
                }
                let mut v: Vec<char> = Vec::new();
                let mut i = a;
                while i < b
                    invariant
                        a <= i <= b <= c@.len(),
                        v@ == c@.subrange(a as int, i as int),
                    decreases b - i,
                {
                    v.push(c[i]);
                    i = i + 1;
                    proof {
                        assert(v@ =~= c@.subrange(a as int, i as int));
                    }
                }
                v
            },
            None => {
                let mut v = vec!['t', 'e', 'm', 'p'];
                let idx = chars_of(index);
                push_all(&mut v, &idx);
                v
            },
        };
        let critical = GpuCollector::read_file_i64(crit);
        let high = GpuCollector::read_file_i64(max);
        let dev = chars_of(device_name);
        Some(SensorReading {
            label: string_from_chars(&label_text),
            device: string_from_chars(&dev),
            temp_millidegrees: temp,
            critical_millidegrees: critical,
            high_millidegrees: high,
        })
    }
}

} // verus!
