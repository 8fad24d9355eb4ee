use vstd::prelude::*;

verus! {

/// Identifier of the managed runtime among all runtimes known to the
/// dispatcher. Artifacts whose `runtime_id` differs are foreign and rejected.
pub const JAVA_RUNTIME_ID: u32 = 1;

/// An artifact identifier as the dispatcher presents it: a runtime
/// qualifier together with a runtime-specific name.
pub struct ArtifactId {
    pub runtime_id: u32,
    pub name: String,
}

/// Artifact identification properties within the managed runtime: the
/// validated, runtime-local form of an artifact name.
#[derive(Debug)]
pub struct JavaArtifactId(String);

impl View for JavaArtifactId {
    type V = Seq<char>;

    closed spec fn view(&self) -> Seq<char> {
        self.0@
    }
}

impl JavaArtifactId {
    /// The artifact name in its string form, as it is marshaled across
    /// the boundary.
    pub fn as_str(&self) -> (s: &str)
        ensures
            s@ == self@,
    {
        self.0.as_str()
    }

    /// Surrenders the name's string form, for marshaling.
    pub fn into_string(self) -> (s: String)
        ensures
            s@ == self@,
    {
        self.0
    }
}

/// Validates that an artifact belongs to this runtime. Every lifecycle
/// operation calls this first; a mismatching `runtime_id` is rejected
/// locally, before anything crosses the boundary.
pub fn parse_artifact(artifact: &ArtifactId) -> (r: Result<JavaArtifactId, crate::errors::ExecutionError>)
    ensures
        artifact.runtime_id == JAVA_RUNTIME_ID <==> r is Ok,
        r matches Ok(id) ==> id@ == artifact.name@,
        r matches Err(e) ==> e == crate::errors::RuntimeError::IncorrectArtifactId.to_execution_error(),
{
    if artifact.runtime_id != JAVA_RUNTIME_ID {
        Err(crate::errors::RuntimeError::IncorrectArtifactId.to_execution_error())
    } else {
        Ok(JavaArtifactId(clone_string(&artifact.name)))
    }
}

fn clone_string(s: &String) -> (r: String)
    ensures
        r@ == s@,
{
    s.clone()
}

} // verus!
