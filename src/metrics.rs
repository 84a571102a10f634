//! Counters of the client's activity, shared between tasks.
use std::sync::atomic::{AtomicU64, Ordering};
use vstd::prelude::*;
use crate::text::{all_ascii, ascii_chars, ascii_string, decimal, push_decimal};

verus! {

pub struct Metrics {
    pub circuits_created: AtomicU64,
    pub bytes_sent: AtomicU64,
    pub bytes_received: AtomicU64,
    pub active_circuits: AtomicU64,
}

pub open spec fn created_label() -> Seq<u8> {
    seq![99u8, 105u8, 114u8, 99u8, 117u8, 105u8, 116u8, 115u8, 95u8, 99u8, 114u8, 101u8, 97u8, 116u8, 101u8, 100u8, 58u8, 32u8]
}

pub open spec fn sent_label() -> Seq<u8> {
    seq![44u8, 32u8, 98u8, 121u8, 116u8, 101u8, 115u8, 95u8, 115u8, 101u8, 110u8, 116u8, 58u8, 32u8]
}

pub open spec fn received_label() -> Seq<u8> {
    seq![44u8, 32u8, 98u8, 121u8, 116u8, 101u8, 115u8, 95u8, 114u8, 101u8, 99u8, 101u8, 105u8, 118u8, 101u8, 100u8, 58u8, 32u8]
}

pub open spec fn active_label() -> Seq<u8> {
    seq![44u8, 32u8, 97u8, 99u8, 116u8, 105u8, 118u8, 101u8, 95u8, 99u8, 105u8, 114u8, 99u8, 117u8, 105u8, 116u8, 115u8, 58u8, 32u8]
}

/// The report line for four counter values.
pub open spec fn report_text(created: u64, sent: u64, received: u64, active: u64) -> Seq<u8> {
    created_label() + decimal(created as nat) + sent_label() + decimal(sent as nat) + received_label() + decimal(received as nat) + active_label()
        + decimal(active as nat)
}

pub proof fn lemma_report_ascii(a: u64, b: u64, c: u64, d: u64)
    ensures
        all_ascii(report_text(a, b, c, d)),
{
    crate::text::lemma_decimal_ascii(a as nat);
    crate::text::lemma_decimal_ascii(b as nat);
    crate::text::lemma_decimal_ascii(c as nat);
    crate::text::lemma_decimal_ascii(d as nat);
    crate::text::lemma_concat_ascii(created_label(), decimal(a as nat));
    crate::text::lemma_concat_ascii(created_label() + decimal(a as nat), sent_label());
    crate::text::lemma_concat_ascii(created_label() + decimal(a as nat) + sent_label(), decimal(b as nat));
    crate::text::lemma_concat_ascii(created_label() + decimal(a as nat) + sent_label() + decimal(b as nat), received_label());
    crate::text::lemma_concat_ascii(created_label() + decimal(a as nat) + sent_label() + decimal(b as nat) + received_label(), decimal(c as nat));
    crate::text::lemma_concat_ascii(created_label() + decimal(a as nat) + sent_label() + decimal(b as nat) + received_label() + decimal(c as nat), active_label());
    crate::text::lemma_concat_ascii(created_label() + decimal(a as nat) + sent_label() + decimal(b as nat) + received_label() + decimal(c as nat) + active_label(), decimal(d as nat));
}

impl Metrics {
    /// All counters at zero.
    pub fn new() -> (r: Self) {
        Metrics {
            circuits_created: AtomicU64::new(0),
            bytes_sent: AtomicU64::new(0),
            bytes_received: AtomicU64::new(0),
            active_circuits: AtomicU64::new(0),
        }
    }

    /// The report line for four counter values.
    pub fn format_report(created: u64, sent: u64, received: u64, active: u64) -> (r: String)
        ensures
            r@ == ascii_chars(report_text(created, sent, received, active)),
    {
        let mut out: Vec<u8> = Vec::new();
        push_label(&mut out, &[99u8, 105u8, 114u8, 99u8, 117u8, 105u8, 116u8, 115u8, 95u8, 99u8, 114u8, 101u8, 97u8, 116u8, 101u8, 100u8, 58u8, 32u8]);
        push_decimal(&mut out, created);
        push_label(&mut out, &[44u8, 32u8, 98u8, 121u8, 116u8, 101u8, 115u8, 95u8, 115u8, 101u8, 110u8, 116u8, 58u8, 32u8]);
        push_decimal(&mut out, sent);
        push_label(&mut out, &[44u8, 32u8, 98u8, 121u8, 116u8, 101u8, 115u8, 95u8, 114u8, 101u8, 99u8, 101u8, 105u8, 118u8, 101u8, 100u8, 58u8, 32u8]);
        push_decimal(&mut out, received);
        push_label(&mut out, &[44u8, 32u8, 97u8, 99u8, 116u8, 105u8, 118u8, 101u8, 95u8, 99u8, 105u8, 114u8, 99u8, 117u8, 105u8, 116u8, 115u8, 58u8, 32u8]);
        push_decimal(&mut out, active);
        assert([99u8, 105u8, 114u8, 99u8, 117u8, 105u8, 116u8, 115u8, 95u8, 99u8, 114u8, 101u8, 97u8, 116u8, 101u8, 100u8, 58u8, 32u8]@ =~= created_label() && [44u8, 32u8, 98u8, 121u8, 116u8, 101u8, 115u8, 95u8, 115u8, 101u8, 110u8, 116u8, 58u8, 32u8]@ =~= sent_label() && [44u8, 32u8, 98u8, 121u8, 116u8, 101u8, 115u8, 95u8, 114u8, 101u8, 99u8, 101u8, 105u8, 118u8, 101u8, 100u8, 58u8, 32u8]@ =~= received_label()
            && [44u8, 32u8, 97u8, 99u8, 116u8, 105u8, 118u8, 101u8, 95u8, 99u8, 105u8, 114u8, 99u8, 117u8, 105u8, 116u8, 115u8, 58u8, 32u8]@ =~= active_label());
        assert(out@ =~= report_text(created, sent, received, active));
        proof {
            lemma_report_ascii(created, sent, received, active);
        }
        ascii_string(out)
    }

    /// One line naming each counter with the value it was read at. The
    /// counters are shared and read without a lock, so the contract names the
    /// line of the values read, whatever they were.
    pub fn report(&self) -> (r: String)
        ensures
            exists|a: u64, b: u64, c: u64, d: u64| r@ == ascii_chars(#[trigger] report_text(a, b, c, d)),
    {
        let a = self.circuits_created.load(Ordering::Relaxed);
        let b = self.bytes_sent.load(Ordering::Relaxed);
        let c = self.bytes_received.load(Ordering::Relaxed);
        let d = self.active_circuits.load(Ordering::Relaxed);
        Self::format_report(a, b, c, d)
    }
}

fn push_label(out: &mut Vec<u8>, label: &[u8])
    ensures
        final(out)@ == old(out)@ + label@,
{
    crate::network::cells::push_all(out, label);
}

} // verus!
