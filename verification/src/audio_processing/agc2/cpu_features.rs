//! Flags for the vector instruction sets of the machine.
use vstd::prelude::*;
use vstd::string::*;

verus! {

/// Collection of flags indicating which CPU features are available.
#[derive(Debug, Copy, Clone, PartialEq, Eq, Structural)]
pub struct AvailableCpuFeatures {
    // Intel.
    pub sse2: bool,
    pub avx2: bool,
    // ARM.
    pub neon: bool,
}

/// A machine as its own feature detection reports it.
#[derive(Debug, Copy, Clone, PartialEq, Eq, Structural)]
pub enum CpuArchitecture {
    X86 { sse2: bool, avx2: bool },
    Arm { neon: bool },
    Other,
}

/// The parts joined by underscores.
pub open spec fn joined(parts: Seq<Seq<char>>) -> Seq<char>
    decreases parts.len(),
{
    if parts.len() == 0 {
        Seq::empty()
    } else if parts.len() == 1 {
        parts[0]
    } else {
        joined(parts.drop_last()) + seq!['_'] + parts.last()
    }
}

/// Appends `part` to `text`, after an underscore unless it is the first part.
fn append_part(text: &mut String, is_first: bool, part: &str, Ghost(parts): Ghost<Seq<Seq<char>>>)
    requires
        old(text)@ == joined(parts),
        is_first == (parts.len() == 0),
    ensures
        final(text)@ == joined(parts.push(part@)),
{
    proof {
        reveal_strlit("_");
        assert(parts.push(part@).drop_last() =~= parts);
        assert("_"@ =~= seq!['_']);
    }
    if !is_first {
        text.append("_");
    }
    text.append(part);
    proof {
        if parts.len() == 0 {
            assert(text@ =~= part@);
        }
    }
}

impl AvailableCpuFeatures {
    pub fn new(sse2: bool, avx2: bool, neon: bool) -> (features: Self)
        ensures
            features == (AvailableCpuFeatures { sse2, avx2, neon }),
    {
        AvailableCpuFeatures { sse2, avx2, neon }
    }

    /// The names of the features that are set, in a fixed order.
    pub open spec fn names(self) -> Seq<Seq<char>> {
        let intel = if self.sse2 {
            seq!["SSE2"@]
        } else {
            Seq::empty()
        } + if self.avx2 {
            seq!["AVX2"@]
        } else {
            Seq::empty()
        };
        intel + if self.neon {
            seq!["NEON"@]
        } else {
            Seq::empty()
        }
    }

    /// The names of the available features joined by underscores, or `none`.
    pub fn to_string(&self) -> (text: String)
        ensures
            text@ == (if self.names().len() == 0 {
                "none"@
            } else {
                joined(self.names())
            }),
    {
        let mut text = String::new();
        let mut is_first = true;
        let ghost mut parts: Seq<Seq<char>> = Seq::empty();
        assert(text@ =~= joined(parts));
        if self.sse2 {
            append_part(&mut text, is_first, "SSE2", Ghost(parts));
            proof {
                parts = parts.push("SSE2"@);
            }
            is_first = false;
        }
        if self.avx2 {
            append_part(&mut text, is_first, "AVX2", Ghost(parts));
            proof {
                parts = parts.push("AVX2"@);
            }
            is_first = false;
        }
        if self.neon {
            append_part(&mut text, is_first, "NEON", Ghost(parts));
            proof {
                parts = parts.push("NEON"@);
            }
            is_first = false;
        }
        assert(parts =~= self.names());
        if is_first {
            text.append("none");
            assert(text@ =~= "none"@);
        }
        text
    }
}

/// The available CPU features of a machine: a flag is set only on the
/// architecture that has the feature.
pub fn get_available_cpu_features(cpu: CpuArchitecture) -> (features: AvailableCpuFeatures)
    ensures
        features.sse2 == (cpu matches CpuArchitecture::X86 { sse2, .. } && sse2),
        features.avx2 == (cpu matches CpuArchitecture::X86 { avx2, .. } && avx2),
        features.neon == (cpu matches CpuArchitecture::Arm { neon } && neon),
{
    match cpu {
        CpuArchitecture::X86 { sse2, avx2 } => AvailableCpuFeatures::new(sse2, avx2, false),
        CpuArchitecture::Arm { neon } => AvailableCpuFeatures::new(false, false, neon),
        CpuArchitecture::Other => AvailableCpuFeatures::new(false, false, false),
    }
}

/// Returns CPU feature flags all set to false.
pub fn no_available_cpu_features() -> (features: AvailableCpuFeatures)
    ensures
        !features.sse2,
        !features.avx2,
        !features.neon,
{
    AvailableCpuFeatures::new(false, false, false)
}

} // verus!
