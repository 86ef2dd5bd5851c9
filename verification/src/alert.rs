//! Threshold-based alert evaluation: a stateless rule engine that maps
//! one metrics snapshot to the current alert set. Every evaluation is a
//! complete rebuild; no alert carries identity or persists across
//! calls. Thresholds on percentages are in hundredths of a percent
//! (10000 is 100%), thresholds on network deltas in bytes.

use vstd::prelude::*;
use vstd::string::*;
use crate::metrics::{Metrics, DiskMetrics};
use crate::text::{digit_to_char, one_dec, two_dec, u64_to_string, push_char};

verus! {

/// Severity of an alert.
#[derive(Debug, Clone, Copy, PartialEq, Eq)]
pub enum AlertLevel {
    Info,
    Warning,
    Critical,
}

/// One active alert: a rendered message, the severity its rule
/// specified, and the evaluation time it was produced at.
#[derive(Debug, Clone)]
pub struct Alert {
    pub message: String,
    pub level: AlertLevel,
    pub timestamp: u64,
}

/// The ghost value of an alert: its message as a character sequence.
pub struct AlertView {
    pub message: Seq<char>,
    pub level: AlertLevel,
    pub timestamp: u64,
}

impl View for Alert {
    type V = AlertView;

    open spec fn view(&self) -> AlertView {
        AlertView { message: self.message@, level: self.level, timestamp: self.timestamp }
    }
}

/// One alert rule: which metric it watches, the threshold above which
/// it fires, and the severity of the alert it produces.
#[derive(Debug, Clone)]
pub enum AlertRule {
    CpuUsage { threshold: u32, level: AlertLevel },
    MemUsage { threshold: u32, level: AlertLevel },
    DiskUsage { threshold: u32, level: AlertLevel },
    NetRx { threshold: u64, level: AlertLevel },
    NetTx { threshold: u64, level: AlertLevel },
}

/// `v`, capped at `u64::MAX`.
pub open spec fn sat_u64(v: nat) -> nat {
    if v <= u64::MAX {
        v
    } else {
        u64::MAX as nat
    }
}

/// `a * mul / div`, capped at `u64::MAX`: the scaling used to render
/// percentages and rates in alert messages.
pub open spec fn scaled(a: nat, mul: nat, div: nat) -> nat
    recommends
        div > 0,
{
    sat_u64(a * mul / div)
}

/// Whether a CPU rule fires: aggregate CPU above the threshold.
pub open spec fn cpu_fires(m: Metrics, threshold: u32) -> bool {
    m.cpu_total > threshold
}

/// Whether a memory rule fires: used/total above the threshold, with a
/// zero total never firing. Stated without division:
/// `used/total * 100 > threshold/100` exactly when
/// `used * 10000 > threshold * total`.
pub open spec fn mem_fires(m: Metrics, threshold: u32) -> bool {
    m.mem_total > 0 && m.mem_used * 10000 > threshold * m.mem_total
}

/// Whether a disk rule fires for one disk: used share of the disk
/// above the threshold. A zero total or an available figure above the
/// total (a negative used share) never fires.
pub open spec fn disk_fires(d: DiskMetrics, threshold: u32) -> bool {
    d.total > 0 && d.available <= d.total && (d.total - d.available) * 10000 > threshold * d.total
}

/// The message of a CPU alert, showing the aggregate percentage with
/// one decimal place.
pub open spec fn cpu_message(m: Metrics) -> Seq<char> {
    "CPU usage high: "@ + one_dec((m.cpu_total / 10) as nat) + "%"@
}

/// The message of a memory alert, showing the used percentage with one
/// decimal place.
pub open spec fn mem_message(m: Metrics) -> Seq<char> {
    "Memory usage high: "@ + one_dec(scaled(m.mem_used as nat, 1000, m.mem_total as nat)) + "%"@
}

/// The message of a disk alert, naming the disk and showing its used
/// percentage with one decimal place.
pub open spec fn disk_message(d: DiskMetrics) -> Seq<char> {
    "Disk "@ + d.name@ + " usage high: "@ + one_dec(
        scaled((d.total - d.available) as nat, 1000, d.total as nat),
    ) + "%"@
}

/// The message of a receive-rate alert, showing the delta in KB with
/// two decimal places.
pub open spec fn net_rx_message(m: Metrics) -> Seq<char> {
    "High network download: "@ + two_dec(scaled(m.net_rx as nat, 100, 1024)) + " KB/s"@
}

/// The message of a transmit-rate alert.
pub open spec fn net_tx_message(m: Metrics) -> Seq<char> {
    "High network upload: "@ + two_dec(scaled(m.net_tx as nat, 100, 1024)) + " KB/s"@
}

/// The alerts a disk rule produces: one per disk whose used share is
/// above the threshold, in the order the disks are listed.
pub open spec fn disk_alerts(
    disks: Seq<DiskMetrics>,
    threshold: u32,
    level: AlertLevel,
    now: u64,
) -> Seq<AlertView>
    decreases disks.len(),
{
    if disks.len() == 0 {
        Seq::<AlertView>::empty()
    } else {
        disk_alerts(disks.drop_last(), threshold, level, now) + (if disk_fires(
            disks.last(),
            threshold,
        ) {
            seq![AlertView { message: disk_message(disks.last()), level, timestamp: now }]
        } else {
            Seq::<AlertView>::empty()
        })
    }
}

/// The alerts one rule produces against one snapshot.
pub open spec fn rule_alerts(rule: AlertRule, m: Metrics, now: u64) -> Seq<AlertView> {
    match rule {
        AlertRule::CpuUsage { threshold, level } => if cpu_fires(m, threshold) {
            seq![AlertView { message: cpu_message(m), level, timestamp: now }]
        } else {
            Seq::<AlertView>::empty()
        },
        AlertRule::MemUsage { threshold, level } => if mem_fires(m, threshold) {
            seq![AlertView { message: mem_message(m), level, timestamp: now }]
        } else {
            Seq::<AlertView>::empty()
        },
        AlertRule::DiskUsage { threshold, level } => disk_alerts(m.disks@, threshold, level, now),
        AlertRule::NetRx { threshold, level } => if m.net_rx > threshold {
            seq![AlertView { message: net_rx_message(m), level, timestamp: now }]
        } else {
            Seq::<AlertView>::empty()
        },
        AlertRule::NetTx { threshold, level } => if m.net_tx > threshold {
            seq![AlertView { message: net_tx_message(m), level, timestamp: now }]
        } else {
            Seq::<AlertView>::empty()
        },
    }
}

/// The whole alert set one evaluation produces: the alerts of every
/// rule, in rule order. A pure function of the rules, the snapshot and
/// the evaluation time alone.
pub open spec fn evaluate_spec(rules: Seq<AlertRule>, m: Metrics, now: u64) -> Seq<AlertView>
    decreases rules.len(),
{
    if rules.len() == 0 {
        Seq::<AlertView>::empty()
    } else {
        evaluate_spec(rules.drop_last(), m, now) + rule_alerts(rules.last(), m, now)
    }
}

/// The ghost values of a list of alerts.
pub open spec fn alerts_view(alerts: Seq<Alert>) -> Seq<AlertView> {
    alerts.map_values(|a: Alert| a@)
}

/// Evaluating the same rules against the same snapshot twice yields
/// the same alert set, message for message and level for level: alerts
/// never accumulate across evaluations, because the result is a
/// function of the inputs alone.
pub proof fn lemma_evaluate_idempotent(
    first: Seq<AlertView>,
    second: Seq<AlertView>,
    rules: Seq<AlertRule>,
    m: Metrics,
    now: u64,
)
    requires
        first == evaluate_spec(rules, m, now),
        second == evaluate_spec(rules, m, now),
    ensures
        first == second,
{
}

/// The rule set and the alerts of the latest evaluation.
#[derive(Debug, Clone)]
pub struct AlertManager {
    pub rules: Vec<AlertRule>,
    pub active_alerts: Vec<Alert>,
}

/// The default rule set: CPU above 90% and memory above 90% warn, any
/// disk above 95% warns, and more than 1 MiB of traffic between two
/// samples in either direction is reported as information.
pub open spec fn default_rules() -> Seq<AlertRule> {
    seq![
        AlertRule::CpuUsage { threshold: 9000, level: AlertLevel::Warning },
        AlertRule::MemUsage { threshold: 9000, level: AlertLevel::Warning },
        AlertRule::DiskUsage { threshold: 9500, level: AlertLevel::Warning },
        AlertRule::NetRx { threshold: 1048576, level: AlertLevel::Info },
        AlertRule::NetTx { threshold: 1048576, level: AlertLevel::Info },
    ]
}

impl AlertManager {
    /// A manager with the default rule set and no active alerts.
    pub fn new() -> (r: AlertManager)
        ensures
            r.rules@ == default_rules(),
            r.active_alerts@.len() == 0,
    {
        let mut rules: Vec<AlertRule> = Vec::new();
        rules.push(AlertRule::CpuUsage { threshold: 9000, level: AlertLevel::Warning });
        rules.push(AlertRule::MemUsage { threshold: 9000, level: AlertLevel::Warning });
        rules.push(AlertRule::DiskUsage { threshold: 9500, level: AlertLevel::Warning });
        rules.push(AlertRule::NetRx { threshold: 1048576, level: AlertLevel::Info });
        rules.push(AlertRule::NetTx { threshold: 1048576, level: AlertLevel::Info });
        proof {
            assert(rules@ =~= default_rules());
        }
        AlertManager { rules, active_alerts: Vec::new() }
    }

    /// One evaluation: rebuilds the active alert set from scratch
    /// against the given snapshot, leaving the rules unchanged. What
    /// was active before the call has no effect on the result.
    pub fn check(&mut self, metrics: &Metrics, now: u64)
        ensures
            final(self).rules == old(self).rules,
            alerts_view(final(self).active_alerts@) == evaluate_spec(
                old(self).rules@,
                *metrics,
                now,
            ),
    {
        self.active_alerts = Vec::new();
        let mut i: usize = 0;
        proof {
            assert(alerts_view(self.active_alerts@) =~= evaluate_spec(
                self.rules@.subrange(0, 0),
                *metrics,
                now,
            ));
        }
        while i < self.rules.len()
            invariant
                i <= self.rules.len(),
                self.rules == old(self).rules,
                alerts_view(self.active_alerts@) == evaluate_spec(
                    self.rules@.subrange(0, i as int),
                    *metrics,
                    now,
                ),
            decreases self.rules.len() - i,
        {
            let ghost pre_alerts = alerts_view(self.active_alerts@);
            let ghost prefix = self.rules@.subrange(0, i as int);
            let ghost prefix1 = self.rules@.subrange(0, i as int + 1);
            proof {
                assert(prefix1.drop_last() =~= prefix);
                assert(prefix1.last() == self.rules@[i as int]);
            }
            let rule = &self.rules[i];
            match rule {
                AlertRule::CpuUsage { threshold, level } => {
                    if metrics.cpu_total > *threshold {
                        let message = cpu_message_exec(metrics);
                        self.active_alerts.push(
                            Alert { message, level: *level, timestamp: now },
                        );
                    }
                },
                AlertRule::MemUsage { threshold, level } => {
                    if metrics.mem_total > 0 && mul_cmp(
                        metrics.mem_used,
                        10000,
                        *threshold as u64,
                        metrics.mem_total,
                    ) {
                        let message = mem_message_exec(metrics);
                        self.active_alerts.push(
                            Alert { message, level: *level, timestamp: now },
                        );
                    }
                },
                AlertRule::DiskUsage { threshold, level } => {
                    let mut j: usize = 0;
                    let ghost disks = metrics.disks@;
                    proof {
                        assert(disk_alerts(disks.subrange(0, 0), *threshold, *level, now)
                            =~= Seq::<AlertView>::empty());
                        assert(alerts_view(self.active_alerts@) =~= pre_alerts + disk_alerts(
                            disks.subrange(0, 0),
                            *threshold,
                            *level,
                            now,
                        ));
                    }
                    while j < metrics.disks.len()
                        invariant
                            j <= metrics.disks.len(),
                            disks == metrics.disks@,
                            self.rules == old(self).rules,
                            i < self.rules@.len(),
                            self.rules@[i as int] == (AlertRule::DiskUsage {
                                threshold: *threshold,
                                level: *level,
                            }),
                            pre_alerts == evaluate_spec(
                                self.rules@.subrange(0, i as int),
                                *metrics,
                                now,
                            ),
                            alerts_view(self.active_alerts@) == pre_alerts + disk_alerts(
                                disks.subrange(0, j as int),
                                *threshold,
                                *level,
                                now,
                            ),
                        decreases metrics.disks.len() - j,
                    {
                        let ghost dpre = disks.subrange(0, j as int);
                        let ghost dpre1 = disks.subrange(0, j as int + 1);
                        proof {
                            assert(dpre1.drop_last() =~= dpre);
                            assert(dpre1.last() == disks[j as int]);
                        }
                        let d = &metrics.disks[j];
                        if d.total > 0 && d.available <= d.total && mul_cmp(
                            d.total - d.available,
                            10000,
                            *threshold as u64,
                            d.total,
                        ) {
                            let message = disk_message_exec(d);
                            let ghost before = self.active_alerts@;
                            let ghost pushed_view = AlertView {
                                message: message@,
                                level: *level,
                                timestamp: now,
                            };
                            self.active_alerts.push(
                                Alert { message, level: *level, timestamp: now },
                            );
                            proof {
                                assert(disk_fires(disks[j as int], *threshold));
                                assert(pushed_view.message == disk_message(disks[j as int]));
                                assert(alerts_view(self.active_alerts@) =~= alerts_view(before)
                                    .push(pushed_view));
                                assert(disk_alerts(dpre1, *threshold, *level, now)
                                    == disk_alerts(dpre, *threshold, *level, now) + seq![
                                    AlertView {
                                        message: disk_message(dpre1.last()),
                                        level: *level,
                                        timestamp: now,
                                    },
                                ]);
                                assert(alerts_view(self.active_alerts@) =~= pre_alerts
                                    + disk_alerts(dpre1, *threshold, *level, now));
                            }
                        } else {
                            proof {
                                assert(alerts_view(self.active_alerts@) =~= pre_alerts
                                    + disk_alerts(dpre1, *threshold, *level, now));
                            }
                        }
                        j = j + 1;
                    }
                    proof {
                        assert(disks.subrange(0, disks.len() as int) =~= disks);
                    }
                },
                AlertRule::NetRx { threshold, level } => {
                    if metrics.net_rx > *threshold {
                        let message = net_message_exec(metrics.net_rx, true);
                        self.active_alerts.push(
                            Alert { message, level: *level, timestamp: now },
                        );
                    }
                },
                AlertRule::NetTx { threshold, level } => {
                    if metrics.net_tx > *threshold {
                        let message = net_message_exec(metrics.net_tx, false);
                        self.active_alerts.push(
                            Alert { message, level: *level, timestamp: now },
                        );
                    }
                },
            }
            i = i + 1;
            proof {
                assert(alerts_view(self.active_alerts@) =~= evaluate_spec(
                    prefix1,
                    *metrics,
                    now,
                ));
            }
        }
        proof {
            assert(self.rules@.subrange(0, self.rules@.len() as int) =~= self.rules@);
        }
    }
}

/// Whether `a * b > c * d`, computed without overflow.
fn mul_cmp(a: u64, b: u64, c: u64, d: u64) -> (r: bool)
    ensures
        r == (a * b > c * d),
{
    proof {
        assert((a as u128) * (b as u128) == a * b && (c as u128) * (d as u128) == c * d && (a
            as u128) * (b as u128) <= u128::MAX && (c as u128) * (d as u128) <= u128::MAX)
            by (nonlinear_arith);
    }
    (a as u128) * (b as u128) > (c as u128) * (d as u128)
}

/// `a * mul / div`, saturating at `u64::MAX`.
fn scale_exec(a: u64, mul: u64, div: u64) -> (r: u64)
    requires
        div >= 1,
    ensures
        r as nat == scaled(a as nat, mul as nat, div as nat),
{
    proof {
        assert((a as u128) * (mul as u128) == a * mul && (a as u128) * (mul as u128)
            <= u128::MAX) by (nonlinear_arith);
    }
    let prod: u128 = (a as u128) * (mul as u128);
    let q: u128 = prod / (div as u128);
    if q > u64::MAX as u128 {
        u64::MAX
    } else {
        q as u64
    }
}

fn one_dec_string(prefix: &str, tenths: u64, suffix: &str) -> (r: String)
    ensures
        r@ == prefix@ + one_dec(tenths as nat) + suffix@,
{
    let mut s = String::from_str(prefix);
    let digits = u64_to_string(tenths / 10);
    s.append(digits.as_str());
    push_char(&mut s, '.');
    push_char(&mut s, digit_to_char((tenths % 10) as u8));
    s.append(suffix);
    proof {
        assert(s@ =~= prefix@ + one_dec(tenths as nat) + suffix@);
    }
    s
}

fn cpu_message_exec(m: &Metrics) -> (r: String)
    ensures
        r@ == cpu_message(*m),
{
    one_dec_string("CPU usage high: ", (m.cpu_total / 10) as u64, "%")
}

fn mem_message_exec(m: &Metrics) -> (r: String)
    requires
        m.mem_total > 0,
    ensures
        r@ == mem_message(*m),
{
    let tenths = scale_exec(m.mem_used, 1000, m.mem_total);
    one_dec_string("Memory usage high: ", tenths, "%")
}

fn disk_message_exec(d: &DiskMetrics) -> (r: String)
    requires
        d.total > 0,
        d.available <= d.total,
    ensures
        r@ == disk_message(*d),
{
    let mut s = String::from_str("Disk ");
    s.append(d.name.as_str());
    let tenths = scale_exec(d.total - d.available, 1000, d.total);
    let tail = one_dec_string(" usage high: ", tenths, "%");
    s.append(tail.as_str());
    proof {
        assert(s@ =~= disk_message(*d));
    }
    s
}

fn net_message_exec(delta: u64, download: bool) -> (r: String)
    ensures
        download ==> r@ == "High network download: "@ + two_dec(scaled(delta as nat, 100, 1024))
            + " KB/s"@,
        !download ==> r@ == "High network upload: "@ + two_dec(scaled(delta as nat, 100, 1024))
            + " KB/s"@,
{
    let hundredths = scale_exec(delta, 100, 1024);
    let mut s = if download {
        String::from_str("High network download: ")
    } else {
        String::from_str("High network upload: ")
    };
    let digits = u64_to_string(hundredths / 100);
    s.append(digits.as_str());
    push_char(&mut s, '.');
    push_char(&mut s, digit_to_char(((hundredths % 100) / 10) as u8));
    push_char(&mut s, digit_to_char((hundredths % 10) as u8));
    s.append(" KB/s");
    proof {
        if download {
            assert(s@ =~= "High network download: "@ + two_dec(
                scaled(delta as nat, 100, 1024),
            ) + " KB/s"@);
        } else {
            assert(s@ =~= "High network upload: "@ + two_dec(
                scaled(delta as nat, 100, 1024),
            ) + " KB/s"@);
        }
    }
    s
}

} // verus!
