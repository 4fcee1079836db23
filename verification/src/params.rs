//! The run parameters: which search to run, on which files, with which
//! seed and cluster count.
//!
//! The surrounding program collects the command line; parsing the
//! collected arguments into typed parameters happens here, including a
//! verified decimal parser for the numeric fields.

use vstd::prelude::*;
use vstd::utf8::{is_ascii_chars, is_ascii_chars_encode_utf8};

verus! {

/// The search that the user asked to run.
#[derive(Debug, Clone, Copy, PartialEq, Eq, Structural)]
pub enum SearchType {
    Copkmeans,
    CopkmeansRobust,
    LocalSearch,
    GenerationalGeneticUniform,
    GenerationalGeneticSegment,
    SteadyGeneticUniform,
    SteadyGeneticSegment,
    MemeticAll,
    MemeticRandom,
    MemeticElitist,
    MultistartLocalSearch,
    IterativeLocalSearch,
    IterativeLocalSearchAnnealing,
    SimulatedAnnealing,
}

/// What parsing the run parameters can reject.
#[derive(Debug, Clone, Copy, PartialEq, Eq, Structural)]
pub enum ParamError {
    WrongArgumentCount,
    BadSeed,
    BadNumberOfClusters,
    BadSearchType,
}

/// The search selected by a command-line code, if the code is one of the
/// known ones.
pub open spec fn search_type_of(code: Seq<char>) -> Option<SearchType> {
    if code == "copkmeans"@ {
        Some(SearchType::Copkmeans)
    } else if code == "copkmeans_robust"@ {
        Some(SearchType::CopkmeansRobust)
    } else if code == "local_search"@ {
        Some(SearchType::LocalSearch)
    } else if code == "gguniform"@ {
        Some(SearchType::GenerationalGeneticUniform)
    } else if code == "ggsegment"@ {
        Some(SearchType::GenerationalGeneticSegment)
    } else if code == "gsuniform"@ {
        Some(SearchType::SteadyGeneticUniform)
    } else if code == "gssegment"@ {
        Some(SearchType::SteadyGeneticSegment)
    } else if code == "memeall"@ {
        Some(SearchType::MemeticAll)
    } else if code == "memerandom"@ {
        Some(SearchType::MemeticRandom)
    } else if code == "memeelitist"@ {
        Some(SearchType::MemeticElitist)
    } else if code == "multistartlocalsearch"@ {
        Some(SearchType::MultistartLocalSearch)
    } else if code == "iterative_local_search"@ {
        Some(SearchType::IterativeLocalSearch)
    } else if code == "iterative_local_search_annealing"@ {
        Some(SearchType::IterativeLocalSearchAnnealing)
    } else if code == "simulated_annealing"@ {
        Some(SearchType::SimulatedAnnealing)
    } else {
        None
    }
}

impl SearchType {
    /// Turns a command-line code into the search it names, and rejects
    /// exactly the codes that name none.
    pub fn from_str(code: &str) -> (r: Result<SearchType, ParamError>)
        ensures
            r matches Ok(t) ==> search_type_of(code@) == Some(t),
            r is Err ==> search_type_of(code@) is None && r == Err::<SearchType,
                ParamError,
            >(ParamError::BadSearchType),
    {
        let code_string = code.to_owned();
        if code_string == "copkmeans".to_owned() {
            return Ok(SearchType::Copkmeans);
        }
        if code_string == "copkmeans_robust".to_owned() {
            return Ok(SearchType::CopkmeansRobust);
        }
        if code_string == "local_search".to_owned() {
            return Ok(SearchType::LocalSearch);
        }
        if code_string == "gguniform".to_owned() {
            return Ok(SearchType::GenerationalGeneticUniform);
        }
        if code_string == "ggsegment".to_owned() {
            return Ok(SearchType::GenerationalGeneticSegment);
        }
        if code_string == "gsuniform".to_owned() {
            return Ok(SearchType::SteadyGeneticUniform);
        }
        if code_string == "gssegment".to_owned() {
            return Ok(SearchType::SteadyGeneticSegment);
        }
        if code_string == "memeall".to_owned() {
            return Ok(SearchType::MemeticAll);
        }
        if code_string == "memerandom".to_owned() {
            return Ok(SearchType::MemeticRandom);
        }
        if code_string == "memeelitist".to_owned() {
            return Ok(SearchType::MemeticElitist);
        }
        if code_string == "multistartlocalsearch".to_owned() {
            return Ok(SearchType::MultistartLocalSearch);
        }
        if code_string == "iterative_local_search".to_owned() {
            return Ok(SearchType::IterativeLocalSearch);
        }
        if code_string == "iterative_local_search_annealing".to_owned() {
            return Ok(SearchType::IterativeLocalSearchAnnealing);
        }
        if code_string == "simulated_annealing".to_owned() {
            return Ok(SearchType::SimulatedAnnealing);
        }
        return Err(ParamError::BadSearchType);
    }
}

/// A decimal digit.
pub open spec fn is_digit(c: char) -> bool {
    '0' <= c && c <= '9'
}

/// The numeric value of the first `i` characters read as decimal digits.
pub open spec fn digits_val(s: Seq<char>, i: int) -> nat
    decreases i,
{
    if i <= 0 {
        0
    } else {
        (digits_val(s, i - 1) * 10 + (s[i - 1] as int - '0' as int)) as nat
    }
}

/// What parsing a decimal number yields: the value of the digits, unless
/// the text is empty, holds a non-digit, or exceeds the range.
pub open spec fn spec_parse_u64(s: Seq<char>) -> Option<u64> {
    if s.len() == 0 || !(forall|i: int| 0 <= i < s.len() ==> is_digit(#[trigger] s[i]))
        || digits_val(s, s.len() as int) > u64::MAX {
        None
    } else {
        Some(digits_val(s, s.len() as int) as u64)
    }
}

/// Reading one more digit never lowers the value.
proof fn lemma_digits_val_monotonic(s: Seq<char>, i: int, j: int)
    requires
        0 <= i <= j,
        forall|a: int| 0 <= a < s.len() ==> is_digit(#[trigger] s[a]),
        j <= s.len(),
    ensures
        digits_val(s, i) <= digits_val(s, j),
    decreases j - i,
{
    if i < j {
        lemma_digits_val_monotonic(s, i, j - 1);
        assert(digits_val(s, j) == (digits_val(s, j - 1) * 10 + (s[j - 1] as int - '0' as int)) as nat);
        assert(digits_val(s, j - 1) * 10 >= digits_val(s, j - 1)) by (nonlinear_arith);
    }
}

/// Parses an unsigned decimal number: the digits' value if the text is a
/// nonempty digit string whose value fits, nothing otherwise.
pub fn parse_u64(s: &str) -> (r: Option<u64>)
    ensures
        r == spec_parse_u64(s@),
{
    if s.is_ascii() == false {
        proof {
            // A string with a non-ASCII character holds a non-digit.
            assert(!is_ascii_chars(s@));
            let i = choose|i: int| 0 <= i < s@.len() && !('\0' <= #[trigger] s@[i] <= '\u{7f}');
            assert(!is_digit(s@[i]));
        }
        return None;
    }
    let bytes = s.as_bytes();
    proof {
        is_ascii_chars_encode_utf8(s@);
    }
    let n = bytes.len();
    if n == 0 {
        return None;
    }
    let mut value: u64 = 0;
    let mut i: usize = 0;
    while i < n
        invariant
            is_ascii_chars(s@),
            bytes@.len() == s@.len(),
            forall|a: int| 0 <= a < s@.len() ==> s@[a] as u8 == bytes@[a],
            n == s@.len(),
            i <= n,
            forall|a: int| 0 <= a < i ==> is_digit(#[trigger] s@[a]),
            value == digits_val(s@, i as int),
        decreases n - i,
    {
        let b = bytes[i];
        if b < 48 || b > 57 {
            proof {
                assert(s@[i as int] as u8 == b);
                assert(s@[i as int] <= '\u{7f}');
                assert(!is_digit(s@[i as int]));
            }
            return None;
        }
        let d = (b - 48) as u64;
        proof {
            assert(s@[i as int] as u8 == b);
            assert(s@[i as int] <= '\u{7f}');
            assert(is_digit(s@[i as int]));
            assert(s@[i as int] as int - '0' as int == d);
        }
        if value > (u64::MAX - d) / 10 {
            proof {
                assert(digits_val(s@, i + 1) == digits_val(s@, i as int) * 10 + d);
                assert(digits_val(s@, i + 1) > u64::MAX) by (nonlinear_arith)
                    requires
                        digits_val(s@, i + 1) == value * 10 + d,
                        value > (u64::MAX - d) / 10,
                        d <= 9,
                ;
                if forall|a: int| 0 <= a < s@.len() ==> is_digit(#[trigger] s@[a]) {
                    lemma_digits_val_monotonic(s@, i + 1, n as int);
                }
            }
            return None;
        }
        value = value * 10 + d;
        i = i + 1;
    }
    return Some(value);
}

/// Parses an unsigned decimal number that must also fit in 32 bits.
pub fn parse_u32(s: &str) -> (r: Option<u32>)
    ensures
        r == (match spec_parse_u64(s@) {
            Some(v) => if v <= u32::MAX {
                Some(v as u32)
            } else {
                None::<u32>
            },
            None => None::<u32>,
        }),
{
    match parse_u64(s) {
        Some(value) => {
            if value <= u32::MAX as u64 {
                return Some(value as u32);
            } else {
                return None;
            }
        },
        None => {
            return None;
        },
    }
}

/// The parameters of one run, as the command line names them.
pub struct ProgramParameters {
    data_file: String,
    constraints_file: String,
    seed: u64,
    number_of_clusters: u32,
    search_type: SearchType,
}

impl ProgramParameters {
    pub closed spec fn spec_data_file(&self) -> Seq<char> {
        self.data_file@
    }

    pub closed spec fn spec_constraints_file(&self) -> Seq<char> {
        self.constraints_file@
    }

    pub closed spec fn spec_seed(&self) -> u64 {
        self.seed
    }

    pub closed spec fn spec_number_of_clusters(&self) -> u32 {
        self.number_of_clusters
    }

    pub closed spec fn spec_search_type(&self) -> SearchType {
        self.search_type
    }

    /// Parses the collected command line: the program name followed by the
    /// data file, the constraints file, the seed, the cluster count and
    /// the search code. Each failure names the first offending argument.
    pub fn new(args: &Vec<String>) -> (r: Result<ProgramParameters, ParamError>)
        ensures
            args@.len() != 6 ==> r == Err::<ProgramParameters, ParamError>(
                ParamError::WrongArgumentCount,
            ),
            args@.len() == 6 && spec_parse_u64(args@[3]@) is None ==> r == Err::<
                ProgramParameters,
                ParamError,
            >(ParamError::BadSeed),
            args@.len() == 6 && spec_parse_u64(args@[3]@) is Some && !(spec_parse_u64(args@[4]@)
                matches Some(v) && v <= u32::MAX) ==> r == Err::<ProgramParameters, ParamError>(
                ParamError::BadNumberOfClusters,
            ),
            args@.len() == 6 && spec_parse_u64(args@[3]@) is Some && (spec_parse_u64(args@[4]@)
                matches Some(v) && v <= u32::MAX) && search_type_of(args@[5]@) is None ==> r
                == Err::<ProgramParameters, ParamError>(ParamError::BadSearchType),
            r matches Ok(p) ==> {
                &&& args@.len() == 6
                &&& p.spec_data_file() == args@[1]@
                &&& p.spec_constraints_file() == args@[2]@
                &&& Some(p.spec_seed()) == spec_parse_u64(args@[3]@)
                &&& spec_parse_u64(args@[4]@) == Some(p.spec_number_of_clusters() as u64)
                &&& search_type_of(args@[5]@) == Some(p.spec_search_type())
            },
    {
        if args.len() != 6 {
            return Err(ParamError::WrongArgumentCount);
        }
        let data_file = args[1].clone();
        let constraints_file = args[2].clone();
        let seed = match parse_u64(args[3].as_str()) {
            Some(value) => value,
            None => {
                return Err(ParamError::BadSeed);
            },
        };
        let number_of_clusters = match parse_u32(args[4].as_str()) {
            Some(value) => value,
            None => {
                return Err(ParamError::BadNumberOfClusters);
            },
        };
        let search_type = match SearchType::from_str(args[5].as_str()) {
            Ok(value) => value,
            Err(_) => {
                return Err(ParamError::BadSearchType);
            },
        };
        return Ok(
            ProgramParameters {
                data_file,
                constraints_file,
                seed,
                number_of_clusters,
                search_type,
            },
        );
    }

    pub fn get_data_file(&self) -> (r: String)
        ensures
            r@ == self.spec_data_file(),
    {
        return self.data_file.clone();
    }

    pub fn get_constraints_file(&self) -> (r: String)
        ensures
            r@ == self.spec_constraints_file(),
    {
        return self.constraints_file.clone();
    }

    pub fn get_seed(&self) -> (r: u64)
        ensures
            r == self.spec_seed(),
    {
        return self.seed;
    }

    pub fn get_number_of_clusters(&self) -> (r: u32)
        ensures
            r == self.spec_number_of_clusters(),
    {
        return self.number_of_clusters;
    }

    pub fn get_search_type(&self) -> (r: SearchType)
        ensures
            r == self.spec_search_type(),
    {
        return self.search_type;
    }
}

} // verus!
