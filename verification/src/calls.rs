use vstd::prelude::*;

verus! {

/// The fixed set of named methods of the foreign lifecycle adapter.
/// Each is resolved once at startup on the foreign side; this enum is the
/// dispatch key the invocation layer maps to the resolved method.
#[derive(Clone, Copy, Debug, PartialEq, Eq, Structural)]
pub enum ForeignMethod {
    DeployArtifact,
    IsArtifactDeployed,
    CreateService,
    InitializeService,
    StopService,
    ExecuteTransaction,
    StateHashes,
    BeforeCommit,
    AfterCommit,
    ConnectApis,
}

/// One marshaled argument of a foreign call. Every argument is built fresh
/// per call; none is retained across calls.
#[derive(Debug)]
pub enum ForeignArg {
    /// A string, marshaled as a fresh foreign string object.
    Str(String),
    /// A byte buffer, marshaled as a fresh foreign byte array.
    Bytes(Vec<u8>),
    /// A 32-bit integer.
    Int(i32),
    /// A 64-bit integer; also carries opaque resource handles.
    Long(i64),
    /// An array of 32-bit integers.
    IntArray(Vec<i32>),
}

/// A fully assembled foreign invocation: which adapter method to call and
/// with which marshaled arguments, in order.
#[derive(Debug)]
pub struct ForeignCall {
    pub method: ForeignMethod,
    pub args: Vec<ForeignArg>,
}

/// The mathematical content of one marshaled argument.
pub enum ForeignArgView {
    Str(Seq<char>),
    Bytes(Seq<u8>),
    Int(i32),
    Long(i64),
    IntArray(Seq<i32>),
}

impl View for ForeignArg {
    type V = ForeignArgView;

    open spec fn view(&self) -> ForeignArgView {
        match self {
            ForeignArg::Str(s) => ForeignArgView::Str(s@),
            ForeignArg::Bytes(b) => ForeignArgView::Bytes(b@),
            ForeignArg::Int(i) => ForeignArgView::Int(*i),
            ForeignArg::Long(l) => ForeignArgView::Long(*l),
            ForeignArg::IntArray(a) => ForeignArgView::IntArray(a@),
        }
    }
}

/// The mathematical content of a foreign invocation.
pub struct ForeignCallView {
    pub method: ForeignMethod,
    pub args: Seq<ForeignArgView>,
}

impl View for ForeignCall {
    type V = ForeignCallView;

    open spec fn view(&self) -> ForeignCallView {
        ForeignCallView {
            method: self.method,
            args: Seq::new(self.args@.len(), |i: int| self.args@[i]@),
        }
    }
}

/// A value returned by a completed foreign call.
#[derive(Debug)]
pub enum ReturnValue {
    Void,
    Bool(bool),
    Bytes(Vec<u8>),
}

/// How a boundary-level failure is classified: either a foreign exception
/// is pending, or the call itself failed before reaching foreign code
/// (bad signature resolution, attachment failure).
#[derive(Clone, Copy, Debug, PartialEq, Eq, Structural)]
pub enum JniErrorKind {
    JavaException,
    Other,
}

/// A boundary-level failure, with its human-readable description.
#[derive(Debug)]
pub struct JniError {
    pub kind: JniErrorKind,
    pub description: String,
}

/// The mathematical content of a boundary-level failure.
pub struct JniErrorView {
    pub kind: JniErrorKind,
    pub description: Seq<char>,
}

impl View for JniError {
    type V = JniErrorView;

    open spec fn view(&self) -> JniErrorView {
        JniErrorView {
            kind: self.kind,
            description: self.description@,
        }
    }
}

} // verus!
