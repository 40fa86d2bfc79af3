//! The generation run: walk every input file, build the registry once, and
//! emit one output unit for each requested file that declares something.

use crate::emit_rust::{
    declares, declares_reference_upto, declares_resource_upto, unit_text, EmitRust,
};
use crate::error::{result_view, BuildError, BuildErrorModel};
use crate::model::{build_registry, Registry, RegistryModel};
use crate::options::{OptionsModel, ResourceCodegenOptions};
use crate::parse_descriptor::{walk_file, ParsedFileModel, ParsedFileResources, ResourceParser};
use crate::resource_id::lemma_duplicate_type_fails;
use crate::schema::{FileModel, SchemaFile};
use crate::text::{chars_of, has_suffix, has_suffix_exec, str_eq, string_of};
use vstd::prelude::*;
use vstd::string::StringExecFns;

verus! {

/// What a generation run is given: the names of the files to generate output
/// for, the parameter string, and all input files.
#[derive(Debug)]
pub struct GenerationRequest {
    pub file_to_generate: Vec<String>,
    pub parameter: Option<String>,
    pub proto_file: Vec<SchemaFile>,
}

/// One output unit: its file name and its content.
#[derive(Debug, Clone, PartialEq, Eq)]
pub struct OutputFile {
    pub name: String,
    pub content: String,
}

/// What a generation run gives back.
#[derive(Debug, Clone, PartialEq, Eq)]
pub struct GenerationResponse {
    pub files: Vec<OutputFile>,
}

/// Main code generator for protobuf resource names
pub struct ResourceCodegen {
    options: ResourceCodegenOptions,
    parser: ResourceParser,
    emitter: EmitRust,
}

/// A request as mathematics.
pub struct RequestModel {
    pub file_to_generate: Seq<Seq<char>>,
    pub parameter: Option<Seq<char>>,
    pub proto_file: Seq<FileModel>,
}

/// An output unit as mathematics.
pub struct OutputFileModel {
    pub name: Seq<char>,
    pub content: Seq<char>,
}

/// A response as mathematics.
pub struct ResponseModel {
    pub files: Seq<OutputFileModel>,
}

impl View for GenerationRequest {
    type V = RequestModel;

    open spec fn view(&self) -> RequestModel {
        RequestModel {
            file_to_generate: self.file_to_generate.deep_view(),
            parameter: self.parameter.deep_view(),
            proto_file: Seq::new(self.proto_file@.len(), |i: int| self.proto_file@[i]@),
        }
    }
}

impl View for OutputFile {
    type V = OutputFileModel;

    open spec fn view(&self) -> OutputFileModel {
        OutputFileModel { name: self.name@, content: self.content@ }
    }
}

impl DeepView for OutputFile {
    type V = OutputFileModel;

    open spec fn deep_view(&self) -> OutputFileModel {
        self@
    }
}

impl View for GenerationResponse {
    type V = ResponseModel;

    open spec fn view(&self) -> ResponseModel {
        ResponseModel { files: self.files.deep_view() }
    }
}

/// What the walks of the first `k` files find, one after the other, or the
/// first error among them.
pub open spec fn collect_upto(files: Seq<FileModel>, k: int) -> Result<
    ParsedFileModel,
    BuildErrorModel,
>
    decreases k,
{
    if k <= 0 || k > files.len() {
        Ok(ParsedFileModel { resources: Seq::empty(), references: Seq::empty() })
    } else {
        match collect_upto(files, k - 1) {
            Err(e) => Err(e),
            Ok(before) => match walk_file(files[k - 1]) {
                Err(e) => Err(e),
                Ok(found) => Ok(
                    ParsedFileModel {
                        resources: before.resources + found.resources,
                        references: before.references + found.references,
                    },
                ),
            },
        }
    }
}

/// `s` without `suffix` at its end, if it ends with it.
pub open spec fn strip_suffix(s: Seq<char>, suffix: Seq<char>) -> Seq<char> {
    if has_suffix(s, suffix) {
        s.subrange(0, s.len() - suffix.len())
    } else {
        s
    }
}

/// The name of the output unit for an input file: the file suffix of the
/// options in place of `.proto`.
pub open spec fn output_name(options: OptionsModel, proto_file: Seq<char>) -> Seq<char> {
    strip_suffix(proto_file, ".proto"@) + options.file_suffix
}

/// The output units for the first `k` requested files: one for each file that
/// declares a resource or a reference, in the order of the request.
pub open spec fn outputs_upto(
    reg: RegistryModel,
    requested: Seq<Seq<char>>,
    options: OptionsModel,
    k: int,
) -> Seq<OutputFileModel>
    decreases k,
{
    if k <= 0 || k > requested.len() {
        Seq::empty()
    } else {
        let before = outputs_upto(reg, requested, options, k - 1);
        let file = requested[k - 1];
        if declares(reg, file) {
            before.push(
                OutputFileModel {
                    name: output_name(options, file),
                    content: unit_text(reg, Some(file), options),
                },
            )
        } else {
            before
        }
    }
}

/// What a generation run gives back.
///
/// All input files are walked, in order; from all that the walks have found
/// the registry is built once; then each requested file that declares
/// something gets its output unit. Any error of a walk or of the build fails
/// the whole run, and nothing is given back but the error.
pub open spec fn generation(options: OptionsModel, request: RequestModel) -> Result<
    ResponseModel,
    BuildErrorModel,
> {
    match collect_upto(request.proto_file, request.proto_file.len() as int) {
        Err(e) => Err(e),
        Ok(found) => match build_registry(found.resources, found.references) {
            Err(e) => Err(e),
            Ok(reg) => Ok(
                ResponseModel {
                    files: outputs_upto(
                        reg,
                        request.file_to_generate,
                        options,
                        request.file_to_generate.len() as int,
                    ),
                },
            ),
        },
    }
}

/// Once the walk of a file has failed, later files change nothing.
pub proof fn lemma_collect_error_stays(files: Seq<FileModel>, k: int, n: int)
    requires
        0 <= k <= n <= files.len(),
        collect_upto(files, k) is Err,
    ensures
        collect_upto(files, n) == collect_upto(files, k),
    decreases n - k,
{
    if k < n {
        lemma_collect_error_stays(files, k, n - 1);
    }
}

/// Where the walks of the first `n` files succeed, the walk of each of them
/// does, and what it finds stands in what they all find, as one block, after
/// the blocks of the files before it.
pub proof fn lemma_collected_block(files: Seq<FileModel>, k: int, n: int)
    requires
        0 <= k < n <= files.len(),
        collect_upto(files, n) is Ok,
    ensures
        collect_upto(files, k) is Ok,
        collect_upto(files, k + 1) is Ok,
        walk_file(files[k]) is Ok,
        ({
            let all = collect_upto(files, n)->Ok_0.resources;
            let base = collect_upto(files, k)->Ok_0.resources.len();
            let block = walk_file(files[k])->Ok_0.resources;
            &&& collect_upto(files, k + 1)->Ok_0.resources.len() == base + block.len()
            &&& base + block.len() <= all.len()
            &&& forall|x: int| 0 <= x < block.len() ==> all[base + x] == #[trigger] block[x]
        }),
    decreases n - k,
{
    if k + 1 < n {
        lemma_collected_block(files, k, n - 1);
        let before = collect_upto(files, n - 1)->Ok_0.resources;
        let all = collect_upto(files, n)->Ok_0.resources;
        let block = walk_file(files[k])->Ok_0.resources;
        let base = collect_upto(files, k)->Ok_0.resources.len();
        assert forall|x: int| 0 <= x < block.len() implies all[base + x] == #[trigger] block[x] by {
            assert(all[base + x] == before[base + x]);
        }
    }
}

/// The blocks of two files do not overlap: the block of the earlier file ends
/// where the block of the later one starts, or before.
pub proof fn lemma_blocks_in_order(files: Seq<FileModel>, a: int, b: int)
    requires
        0 <= a < b <= files.len(),
        collect_upto(files, b) is Ok,
    ensures
        collect_upto(files, a + 1) is Ok,
        collect_upto(files, a + 1)->Ok_0.resources.len() <= collect_upto(
            files,
            b,
        )->Ok_0.resources.len(),
    decreases b - a,
{
    if a + 1 < b {
        lemma_blocks_in_order(files, a, b - 1);
    }
}

/// Duplicate detection: where the walks of all input files succeed, and two
/// different files declare the same resource type, the run fails and says
/// that a type is declared twice; there is no output.
pub proof fn lemma_duplicate_fails_generation(
    options: OptionsModel,
    request: RequestModel,
    a: int,
    x: int,
    b: int,
    y: int,
)
    requires
        collect_upto(request.proto_file, request.proto_file.len() as int) is Ok,
        0 <= a < b < request.proto_file.len(),
        walk_file(request.proto_file[a]) is Ok,
        walk_file(request.proto_file[b]) is Ok,
        0 <= x < walk_file(request.proto_file[a])->Ok_0.resources.len(),
        0 <= y < walk_file(request.proto_file[b])->Ok_0.resources.len(),
        walk_file(request.proto_file[a])->Ok_0.resources[x].resource_type == walk_file(
            request.proto_file[b],
        )->Ok_0.resources[y].resource_type,
    ensures
        generation(options, request) matches Err(e) && e is DuplicateResourceType,
{
    let files = request.proto_file;
    let n = files.len() as int;
    let found = collect_upto(files, n)->Ok_0;
    lemma_collected_block(files, a, n);
    lemma_collected_block(files, b, n);
    lemma_blocks_in_order(files, a, b);
    let first = walk_file(files[a])->Ok_0.resources;
    let second = walk_file(files[b])->Ok_0.resources;
    let i = collect_upto(files, a)->Ok_0.resources.len() + x;
    let j = collect_upto(files, b)->Ok_0.resources.len() + y;
    assert(found.resources[i] == first[x]);
    assert(found.resources[j] == second[y]);
    lemma_duplicate_type_fails(found.resources, found.references, i, j);
}

/// Determinism: two runs on requests and options with the same content give
/// the same response or the same error.
pub proof fn lemma_generation_is_deterministic(
    first: (OptionsModel, RequestModel),
    second: (OptionsModel, RequestModel),
)
    requires
        first == second,
    ensures
        generation(first.0, first.1) == generation(second.0, second.1),
{
}

impl ResourceCodegen {
    /// A generator with the given options.
    pub fn new(options: ResourceCodegenOptions) -> (out: Self)
        ensures
            out.options() == options@,
    {
        Self { options, parser: ResourceParser::new(), emitter: EmitRust::new() }
    }

    /// The options that this generator was made with.
    pub closed spec fn options(&self) -> OptionsModel {
        self.options@
    }

    /// Whether the registry declares a resource or a reference in `file`.
    fn file_declares(registry: &Registry, file: &str) -> (b: bool)
        ensures
            b == declares(registry@, file@),
    {
        let mut k: usize = 0;
        while k < registry.resources.len()
            invariant
                k <= registry.resources@.len(),
                !declares_resource_upto(registry@, file@, k as int),
            decreases registry.resources@.len() - k,
        {
            proof {
                assert(registry@.resources[k as int] == registry.resources@[k as int]@);
            }
            if str_eq(registry.resources[k].source_file.as_str(), file) {
                proof {
                    lemma_declares_resource_stays(
                        registry@,
                        file@,
                        k + 1,
                        registry.resources@.len() as int,
                    );
                }
                return true;
            }
            k += 1;
        }
        let mut k: usize = 0;
        while k < registry.references.len()
            invariant
                k <= registry.references@.len(),
                !declares_reference_upto(registry@, file@, k as int),
            decreases registry.references@.len() - k,
        {
            proof {
                assert(registry@.references[k as int] == registry.references@[k as int]@);
            }
            if str_eq(registry.references[k].source_file.as_str(), file) {
                proof {
                    lemma_declares_reference_stays(
                        registry@,
                        file@,
                        k + 1,
                        registry.references@.len() as int,
                    );
                }
                return true;
            }
            k += 1;
        }
        false
    }

    /// Run the generation for a request.
    pub fn generate(&self, request: GenerationRequest) -> (r: Result<
        GenerationResponse,
        BuildError,
    >)
        ensures
            result_view(r) == generation(self.options(), request@),
    {
        // Parse all files to find resources and references
        let ghost files = request@.proto_file;
        let mut found = ParsedFileResources::default();
        let mut k: usize = 0;
        while k < request.proto_file.len()
            invariant
                k <= request.proto_file@.len(),
                files == request@.proto_file,
                collect_upto(files, k as int) == Ok::<ParsedFileModel, BuildErrorModel>(found@),
            decreases request.proto_file@.len() - k,
        {
            proof {
                assert(files[k as int] == request.proto_file@[k as int]@);
            }
            match self.parser.parse_file(&request.proto_file[k]) {
                Ok(mut file) => {
                    let ghost before = found@;
                    let ghost added = file@;
                    found.resources.append(&mut file.resources);
                    found.references.append(&mut file.references);
                    proof {
                        assert(found.resources.deep_view() =~= before.resources + added.resources);
                        assert(found.references.deep_view() =~= before.references
                            + added.references);
                    }
                },
                Err(e) => {
                    proof {
                        lemma_collect_error_stays(files, k + 1, files.len() as int);
                    }
                    return Err(e);
                },
            }
            k += 1;
        }

        // Build the models once, from all that was found
        let registry = match Registry::build(
            found.resources.as_slice(),
            found.references.as_slice(),
        ) {
            Ok(registry) => registry,
            Err(e) => {
                return Err(e);
            },
        };

        // Generate code for each requested file that declares resources or
        // references
        let mut files_out: Vec<OutputFile> = Vec::new();
        let mut i: usize = 0;
        while i < request.file_to_generate.len()
            invariant
                i <= request.file_to_generate@.len(),
                files_out.deep_view() == outputs_upto(
                    registry@,
                    request@.file_to_generate,
                    self.options(),
                    i as int,
                ),
            decreases request.file_to_generate@.len() - i,
        {
            let file = request.file_to_generate[i].as_str();
            proof {
                assert(request@.file_to_generate[i as int] == file@);
            }
            if Self::file_declares(&registry, file) {
                let ghost before = files_out.deep_view();
                let output = OutputFile {
                    name: self.get_output_filename(file),
                    content: self.emitter.emit_unit(&registry, Some(file), &self.options),
                };
                let ghost added = output@;
                files_out.push(output);
                proof {
                    assert(files_out.deep_view() =~= before.push(added));
                }
            }
            i += 1;
        }
        Ok(GenerationResponse { files: files_out })
    }

    /// The name of the output unit for an input file.
    pub fn get_output_filename(&self, proto_file: &str) -> (out: String)
        ensures
            out@ == output_name(self.options(), proto_file@),
    {
        let name = chars_of(proto_file);
        let suffix = chars_of(".proto");
        let mut out = if has_suffix_exec(name.as_slice(), suffix.as_slice()) {
            string_of(name.as_slice(), 0, name.len() - suffix.len())
        } else {
            proof {
                assert(name@.subrange(0, name@.len() as int) =~= name@);
            }
            string_of(name.as_slice(), 0, name.len())
        };
        out.append(self.options.file_suffix.as_str());
        out
    }
}

/// A file that declares one of the first resources declares a resource.
pub proof fn lemma_declares_resource_stays(reg: RegistryModel, file: Seq<char>, k: int, n: int)
    requires
        0 <= k <= n <= reg.resources.len(),
        declares_resource_upto(reg, file, k),
    ensures
        declares_resource_upto(reg, file, n),
    decreases n - k,
{
    if k < n {
        lemma_declares_resource_stays(reg, file, k, n - 1);
    }
}

/// A file that declares one of the first references declares a reference.
pub proof fn lemma_declares_reference_stays(reg: RegistryModel, file: Seq<char>, k: int, n: int)
    requires
        0 <= k <= n <= reg.references.len(),
        declares_reference_upto(reg, file, k),
    ensures
        declares_reference_upto(reg, file, n),
    decreases n - k,
{
    if k < n {
        lemma_declares_reference_stays(reg, file, k, n - 1);
    }
}

} // verus!
