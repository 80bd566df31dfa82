use vstd::prelude::*;

use crate::snapshot::MetricsSnapshot;

verus! {

/// Host facts shown in the system-information panel. A metric the sampler
/// cannot provide degrades to the empty string, never to an error.
pub struct Info {
    pub host_name: String,
    pub os_name: String,
    pub kernel_version: String,
    pub uptime: u64,
    pub cpu_name: String,
}

impl Info {
    /// Before the first sample everything reads empty.
    pub fn new() -> (r: Self)
        ensures
            r.host_name@ == Seq::<char>::empty(),
            r.os_name@ == Seq::<char>::empty(),
            r.kernel_version@ == Seq::<char>::empty(),
            r.uptime == 0u64,
            r.cpu_name@ == Seq::<char>::empty(),
    {
        Info {
            host_name: String::new(),
            os_name: String::new(),
            kernel_version: String::new(),
            uptime: 0,
            cpu_name: String::new(),
        }
    }

    /// Take the host facts of one snapshot.
    pub fn update(&mut self, snapshot: &MetricsSnapshot)
        ensures
            final(self).host_name@ == snapshot.host_name@,
            final(self).os_name@ == snapshot.os_name@,
            final(self).kernel_version@ == snapshot.kernel_version@,
            final(self).uptime == snapshot.uptime_seconds,
            final(self).cpu_name@ == snapshot.cpu_brand@,
    {
        self.host_name = snapshot.host_name.clone();
        self.os_name = snapshot.os_name.clone();
        self.kernel_version = snapshot.kernel_version.clone();
        self.uptime = snapshot.uptime_seconds;
        self.cpu_name = snapshot.cpu_brand.clone();
    }
}

} // verus!
