//! Register model of one TAIC controller: a block of 256 hart register
//! groups, each made of twenty 64-bit registers, and the field decoders of
//! the readable registers.
use vstd::prelude::*;
use core::marker::PhantomData;

verus! {

/// Number of hart register groups in a register block.
pub const HART_COUNT: usize = 256;

/// Distance in bytes between two consecutive hart register groups.
pub const HART_STRIDE: usize = 4096;

/// Mask of the 58-bit task control block pointer field (bits 6..64).
pub const TCB_MASK: u64 = 0x07ff_ffff_ffff_ffff;

/// Mask of the 60-bit online counter field (bits 4..64).
pub const OCNT_MASK: u64 = 0x1fff_ffff_ffff_ffff;

/// Add a task into the priority queue (write only).
pub struct AddSpec;
/// Fetch a task from the priority queue (read only).
pub struct FetchSpec;
/// Switch process.
pub struct SwitchProcessSpec;
/// Switch os.
pub struct SwitchOsSpec;
/// Register receive task.
pub struct RegisterRecvTaskSpec;
/// Register receive target os.
pub struct RegisterRecvTargetOsSpec;
/// Register receive target process.
pub struct RegisterRecvTargetProcSpec;
/// Register receive target task.
pub struct RegisterRecvTargetTaskSpec;
/// Register send task.
pub struct RegisterSendTaskSpec;
/// Register send target os.
pub struct RegisterSendTargetOsSpec;
/// Register send target process.
pub struct RegisterSendTargetProcSpec;
/// Register send target task.
pub struct RegisterSendTargetTaskSpec;
/// Send interrupt to the target os.
pub struct SendIntrOsSpec;
/// Send interrupt to the target process.
pub struct SendIntrProcSpec;
/// Send interrupt to the target task.
pub struct SendIntrTaskSpec;
/// Switch to the hypervisor.
pub struct SwitchHypervisorSpec;
/// Get the current task (read only).
pub struct CurrentSpec;
/// Remove the specific task.
pub struct RemoveSpec;
/// The status register (read only).
pub struct StatusSpec;
/// Dump the information on the specific position.
pub struct DumpSpec;

/// A 64-bit register whose layout is described by `S`.
pub struct Reg<S> {
    bits: u64,
    spec: PhantomData<S>,
}

/// The value read from a register described by `S`.
pub struct R<S> {
    bits: u64,
    spec: PhantomData<S>,
}

impl<S> Reg<S> {
    /// The raw content of the register.
    pub closed spec fn value(&self) -> u64 {
        self.bits
    }

    /// A register holding its reset value, 0.
    pub fn new() -> (r: Self)
        ensures
            r.value() == 0,
    {
        Reg { bits: 0, spec: PhantomData }
    }

    /// Reads the register.
    pub fn read(&self) -> (r: R<S>)
        ensures
            r.bits() == self.value(),
    {
        R { bits: self.bits, spec: PhantomData }
    }

    /// Writes `bits` into the register.
    pub fn write(&mut self, bits: u64)
        ensures
            final(self).value() == bits,
    {
        self.bits = bits;
    }

    /// Puts the register back to its reset value, 0.
    pub fn reset(&mut self)
        ensures
            final(self).value() == 0,
    {
        self.bits = 0;
    }
}

impl<S> R<S> {
    /// The raw bits that were read.
    pub closed spec fn bits(&self) -> u64 {
        self.bits
    }

    /// The raw bits that were read.
    pub fn raw(&self) -> (b: u64)
        ensures
            b == self.bits(),
    {
        self.bits
    }
}

/// The task control block pointer held in bits 6..64 of `bits`.
pub open spec fn tcb_field(bits: u64) -> u64 {
    (bits >> 6u64) & TCB_MASK
}

/// The interrupt cause held in bits 0..4 of `bits`.
pub open spec fn cause_field(bits: u64) -> u8 {
    (bits & 0x0fu64) as u8
}

/// The online counter held in bits 4..64 of `bits`.
pub open spec fn ocnt_field(bits: u64) -> u64 {
    (bits >> 4u64) & OCNT_MASK
}

impl R<FetchSpec> {
    /// The pointer of the task control block that was fetched.
    pub fn tcb(&self) -> (t: u64)
        ensures
            t == tcb_field(self.bits()),
            t == self.bits() / 64,
    {
        let b = self.bits;
        assert(((b >> 6u64) & 0x07ff_ffff_ffff_ffffu64) == b / 64) by (bit_vector);
        (self.bits >> 6) & TCB_MASK
    }
}

impl R<CurrentSpec> {
    /// The pointer of the task control block of the current task.
    pub fn tcb(&self) -> (t: u64)
        ensures
            t == tcb_field(self.bits()),
            t == self.bits() / 64,
    {
        let b = self.bits;
        assert(((b >> 6u64) & 0x07ff_ffff_ffff_ffffu64) == b / 64) by (bit_vector);
        (self.bits >> 6) & TCB_MASK
    }
}

impl R<StatusSpec> {
    /// The cause of the interrupt.
    pub fn cause(&self) -> (c: u8)
        ensures
            c == cause_field(self.bits()),
            c == self.bits() % 16,
            c < 16,
    {
        let b = self.bits;
        assert((b & 0x0fu64) == b % 16) by (bit_vector);
        (self.bits & 0x0f) as u8
    }

    /// The number of online harts of the current os or process.
    pub fn ocnt(&self) -> (o: u64)
        ensures
            o == ocnt_field(self.bits()),
            o == self.bits() / 16,
    {
        let b = self.bits;
        assert(((b >> 4u64) & 0x1fff_ffff_ffff_ffffu64) == b / 16) by (bit_vector);
        (self.bits >> 4) & OCNT_MASK
    }
}

/// Register accessor: add task into the priority queue.
pub type Add = Reg<AddSpec>;

/// Register accessor: fetch a task from the priority queue.
pub type Fetch = Reg<FetchSpec>;

/// Register accessor: switch process.
pub type SwitchProcess = Reg<SwitchProcessSpec>;

/// Register accessor: switch os.
pub type SwitchOs = Reg<SwitchOsSpec>;

/// Register accessor: register receive task.
pub type RegisterRecvTask = Reg<RegisterRecvTaskSpec>;

/// Register accessor: register receive target os.
pub type RegisterRecvTargetOs = Reg<RegisterRecvTargetOsSpec>;

/// Register accessor: register receive target process.
pub type RegisterRecvTargetProc = Reg<RegisterRecvTargetProcSpec>;

/// Register accessor: register receive target task.
pub type RegisterRecvTargetTask = Reg<RegisterRecvTargetTaskSpec>;

/// Register accessor: register send task.
pub type RegisterSendTask = Reg<RegisterSendTaskSpec>;

/// Register accessor: register send target os.
pub type RegisterSendTargetOs = Reg<RegisterSendTargetOsSpec>;

/// Register accessor: register send target process.
pub type RegisterSendTargetProc = Reg<RegisterSendTargetProcSpec>;

/// Register accessor: register send target task.
pub type RegisterSendTargetTask = Reg<RegisterSendTargetTaskSpec>;

/// Register accessor: send interrupt to the target os.
pub type SendIntrOs = Reg<SendIntrOsSpec>;

/// Register accessor: send interrupt to the target process.
pub type SendIntrProc = Reg<SendIntrProcSpec>;

/// Register accessor: send interrupt to the target task.
pub type SendIntrTask = Reg<SendIntrTaskSpec>;

/// Register accessor: switch to the hypervisor.
pub type SwitchHypervisor = Reg<SwitchHypervisorSpec>;

/// Register accessor: get the current task.
pub type Current = Reg<CurrentSpec>;

/// Register accessor: remove the specific task.
pub type Remove = Reg<RemoveSpec>;

/// Register accessor: the status register.
pub type Status = Reg<StatusSpec>;

/// Register accessor: dump the information on the specific position.
pub type Dump = Reg<DumpSpec>;

/// The registers of one hart, in address order, eight bytes apart.
pub struct Hart {
    add: Add,
    fetch: Fetch,
    switch_process: SwitchProcess,
    switch_os: SwitchOs,
    register_recv_task: RegisterRecvTask,
    register_recv_target_os: RegisterRecvTargetOs,
    register_recv_target_proc: RegisterRecvTargetProc,
    register_recv_target_task: RegisterRecvTargetTask,
    register_send_task: RegisterSendTask,
    register_send_target_os: RegisterSendTargetOs,
    register_send_target_proc: RegisterSendTargetProc,
    register_send_target_task: RegisterSendTargetTask,
    send_intr_os: SendIntrOs,
    send_intr_proc: SendIntrProc,
    send_intr_task: SendIntrTask,
    switch_hypervisor: SwitchHypervisor,
    current: Current,
    remove: Remove,
    status: Status,
    dump: Dump,
}

impl Hart {
    /// The contents of the twenty registers, in address order.
    pub closed spec fn regs(&self) -> Seq<u64> {
        seq![
            self.add.value(),
            self.fetch.value(),
            self.switch_process.value(),
            self.switch_os.value(),
            self.register_recv_task.value(),
            self.register_recv_target_os.value(),
            self.register_recv_target_proc.value(),
            self.register_recv_target_task.value(),
            self.register_send_task.value(),
            self.register_send_target_os.value(),
            self.register_send_target_proc.value(),
            self.register_send_target_task.value(),
            self.send_intr_os.value(),
            self.send_intr_proc.value(),
            self.send_intr_task.value(),
            self.switch_hypervisor.value(),
            self.current.value(),
            self.remove.value(),
            self.status.value(),
            self.dump.value(),
        ]
    }

    /// A register group holding the reset value of every register.
    pub fn new() -> (h: Self)
        ensures
            h.regs() == Seq::new(20, |i: int| 0u64),
    {
        let h = Hart {
            add: Reg::new(),
            fetch: Reg::new(),
            switch_process: Reg::new(),
            switch_os: Reg::new(),
            register_recv_task: Reg::new(),
            register_recv_target_os: Reg::new(),
            register_recv_target_proc: Reg::new(),
            register_recv_target_task: Reg::new(),
            register_send_task: Reg::new(),
            register_send_target_os: Reg::new(),
            register_send_target_proc: Reg::new(),
            register_send_target_task: Reg::new(),
            send_intr_os: Reg::new(),
            send_intr_proc: Reg::new(),
            send_intr_task: Reg::new(),
            switch_hypervisor: Reg::new(),
            current: Reg::new(),
            remove: Reg::new(),
            status: Reg::new(),
            dump: Reg::new(),
        };
        assert(h.regs() =~= Seq::new(20, |i: int| 0u64));
        h
    }

    /// Add task into the priority queue. (offset 0x0)
    pub fn add(&self) -> (r: &Add)
        ensures
            r.value() == self.regs()[0],
    {
        &self.add
    }

    /// Fetch a task from the priority queue. (offset 0x8)
    pub fn fetch(&self) -> (r: &Fetch)
        ensures
            r.value() == self.regs()[1],
    {
        &self.fetch
    }

    /// Switch process. (offset 0x10)
    pub fn switch_process(&self) -> (r: &SwitchProcess)
        ensures
            r.value() == self.regs()[2],
    {
        &self.switch_process
    }

    /// Switch os. (offset 0x18)
    pub fn switch_os(&self) -> (r: &SwitchOs)
        ensures
            r.value() == self.regs()[3],
    {
        &self.switch_os
    }

    /// Register receive task. (offset 0x20)
    pub fn register_recv_task(&self) -> (r: &RegisterRecvTask)
        ensures
            r.value() == self.regs()[4],
    {
        &self.register_recv_task
    }

    /// Register receive target os. (offset 0x28)
    pub fn register_recv_target_os(&self) -> (r: &RegisterRecvTargetOs)
        ensures
            r.value() == self.regs()[5],
    {
        &self.register_recv_target_os
    }

    /// Register receive target process. (offset 0x30)
    pub fn register_recv_target_proc(&self) -> (r: &RegisterRecvTargetProc)
        ensures
            r.value() == self.regs()[6],
    {
        &self.register_recv_target_proc
    }

    /// Register receive target task. (offset 0x38)
    pub fn register_recv_target_task(&self) -> (r: &RegisterRecvTargetTask)
        ensures
            r.value() == self.regs()[7],
    {
        &self.register_recv_target_task
    }

    /// Register send task. (offset 0x40)
    pub fn register_send_task(&self) -> (r: &RegisterSendTask)
        ensures
            r.value() == self.regs()[8],
    {
        &self.register_send_task
    }

    /// Register send target os. (offset 0x48)
    pub fn register_send_target_os(&self) -> (r: &RegisterSendTargetOs)
        ensures
            r.value() == self.regs()[9],
    {
        &self.register_send_target_os
    }

    /// Register send target process. (offset 0x50)
    pub fn register_send_target_proc(&self) -> (r: &RegisterSendTargetProc)
        ensures
            r.value() == self.regs()[10],
    {
        &self.register_send_target_proc
    }

    /// Register send target task. (offset 0x58)
    pub fn register_send_target_task(&self) -> (r: &RegisterSendTargetTask)
        ensures
            r.value() == self.regs()[11],
    {
        &self.register_send_target_task
    }

    /// Send interrupt to the target os. (offset 0x60)
    pub fn send_intr_os(&self) -> (r: &SendIntrOs)
        ensures
            r.value() == self.regs()[12],
    {
        &self.send_intr_os
    }

    /// Send interrupt to the target process. (offset 0x68)
    pub fn send_intr_proc(&self) -> (r: &SendIntrProc)
        ensures
            r.value() == self.regs()[13],
    {
        &self.send_intr_proc
    }

    /// Send interrupt to the target task. (offset 0x70)
    pub fn send_intr_task(&self) -> (r: &SendIntrTask)
        ensures
            r.value() == self.regs()[14],
    {
        &self.send_intr_task
    }

    /// Switch to the hypervisor. (offset 0x78)
    pub fn switch_hypervisor(&self) -> (r: &SwitchHypervisor)
        ensures
            r.value() == self.regs()[15],
    {
        &self.switch_hypervisor
    }

    /// Get the current task. (offset 0x80)
    pub fn current(&self) -> (r: &Current)
        ensures
            r.value() == self.regs()[16],
    {
        &self.current
    }

    /// Remove the specific task. (offset 0x88)
    pub fn remove(&self) -> (r: &Remove)
        ensures
            r.value() == self.regs()[17],
    {
        &self.remove
    }

    /// The status register. (offset 0x90)
    pub fn status(&self) -> (r: &Status)
        ensures
            r.value() == self.regs()[18],
    {
        &self.status
    }

    /// Dump the information on the specific position. (offset 0x98)
    pub fn dump(&self) -> (r: &Dump)
        ensures
            r.value() == self.regs()[19],
    {
        &self.dump
    }

}

/// A register block: the register groups of all harts, the group of hart
/// `n` standing `n * HART_STRIDE` bytes after the start of the block.
pub struct RegisterBlock {
    harts: Vec<Hart>,
}

/// Byte offset of the register group of hart `n` within a register block.
pub open spec fn hart_offset_spec(n: int) -> int {
    n * HART_STRIDE
}

/// Byte offset of the register group of hart `n` within a register block.
pub fn hart_offset(n: usize) -> (off: usize)
    requires
        n < HART_COUNT,
    ensures
        off == hart_offset_spec(n as int),
{
    n * HART_STRIDE
}

impl RegisterBlock {
    /// The register groups, hart by hart.
    pub closed spec fn groups(&self) -> Seq<Hart> {
        self.harts@
    }

    /// A block whose harts all hold reset values.
    pub fn new() -> (b: Self)
        ensures
            b.groups().len() == HART_COUNT,
            forall|i: int| 0 <= i < HART_COUNT ==> #[trigger] b.groups()[i].regs() == Seq::new(20, |j: int| 0u64),
    {
        let mut harts: Vec<Hart> = Vec::new();
        let mut i: usize = 0;
        while i < HART_COUNT
            invariant
                i <= HART_COUNT,
                harts@.len() == i,
                forall|k: int| 0 <= k < i ==> #[trigger] harts@[k].regs() == Seq::new(20, |j: int| 0u64),
            decreases HART_COUNT - i,
        {
            harts.push(Hart::new());
            i = i + 1;
        }
        RegisterBlock { harts }
    }

    /// Related registers of hart `n`.
    pub fn harts(&self, n: usize) -> (h: &Hart)
        requires
            n < self.groups().len(),
        ensures
            *h == self.groups()[n as int],
    {
        &self.harts[n]
    }
}

} // verus!
