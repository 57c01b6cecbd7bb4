use vstd::prelude::*;

verus! {

/// Element type of a primitive array in a heap dump.
#[derive(Clone, Copy, Debug, PartialEq, Eq, Structural)]
pub enum PrimitiveKind {
    Boolean,
    Char,
    Float,
    Double,
    Byte,
    Short,
    Int,
    Long,
}

/// Kind of a GC root sub-record.
#[derive(Clone, Copy, Debug, PartialEq, Eq, Structural)]
pub enum GcRootKind {
    Unknown,
    ThreadObj,
    JniGlobal,
    JniLocalRef,
    StackFrame,
    NativeStack,
    SystemClass,
    ThreadBlock,
    BusyMonitor,
}

/// One sub-record of a heap dump segment, holding the values that the analyses read.
#[derive(Clone, Debug)]
pub enum HeapItem {
    /// A GC root; `object_id` is 0 when the record names no object.
    GcRoot { kind: GcRootKind, object_id: u64 },
    /// An object instance with its raw field bytes.
    Instance { object_id: u64, class_id: u64, fields: Vec<u8> },
    /// An array of references with its element count.
    ObjectArray { object_id: u64, array_class_id: u64, num_elements: u32 },
    /// An array of primitives with the byte length of its contents.
    PrimitiveArray { object_id: u64, element_kind: PrimitiveKind, content_len: usize },
    /// A sub-record that the analyses do not read (class dumps).
    Other,
}

} // verus!
