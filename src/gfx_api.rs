use vstd::prelude::*;
use vstd::string::StrSliceExecFns;

verus! {

/// A failure of a graphics-backend operation. Failures are values returned to
/// the caller, never aborts.
#[derive(Debug)]
pub struct GfxError {
    pub message: String,
}

pub type GfxResult<T> = Result<T, GfxError>;

/// The message of a write that does not fit its buffer.
pub open spec fn overflow_message() -> Seq<char> {
    "Buffer overflow"@
}

/// The message of a blank shader source.
pub open spec fn empty_source_message() -> Seq<char> {
    "Shader source is empty"@
}

/// The message of a blank command label.
pub open spec fn empty_command_message() -> Seq<char> {
    "Command is empty"@
}

/// Characters with the Unicode `White_Space` property.
pub open spec fn is_white_space(c: char) -> bool {
    let u = c as u32;
    ||| 0x9 <= u <= 0xd
    ||| u == 0x20
    ||| u == 0x85
    ||| u == 0xa0
    ||| u == 0x1680
    ||| 0x2000 <= u <= 0x200a
    ||| u == 0x2028
    ||| u == 0x2029
    ||| u == 0x202f
    ||| u == 0x205f
    ||| u == 0x3000
}

/// Empty, or whitespace only.
pub open spec fn is_blank(s: Seq<char>) -> bool {
    forall|i: int| 0 <= i < s.len() ==> is_white_space(#[trigger] s[i])
}

/// Whether `c` has the Unicode `White_Space` property, as `char::is_whitespace`
/// documents it.
fn char_is_whitespace(c: char) -> (r: bool)
    ensures
        r == is_white_space(c),
{
    let u = c as u32;
    (0x9 <= u && u <= 0xd) || u == 0x20 || u == 0x85 || u == 0xa0 || u == 0x1680 || (0x2000 <= u
        && u <= 0x200a) || u == 0x2028 || u == 0x2029 || u == 0x202f || u == 0x205f || u == 0x3000
}

/// Whether `s` is empty or holds whitespace only: what trimming it would leave
/// empty.
pub fn blank(s: &str) -> (r: bool)
    ensures
        r == is_blank(s@),
{
    let n = s.unicode_len();
    let mut i: usize = 0;
    while i < n
        invariant
            n == s@.len(),
            i <= n,
            forall|j: int| 0 <= j < i ==> is_white_space(#[trigger] s@[j]),
        decreases n - i,
    {
        if !char_is_whitespace(s.get_char(i)) {
            return false;
        }
        i = i + 1;
    }
    true
}

fn error(message: &str) -> (e: GfxError)
    ensures
        e.message@ == message@,
{
    GfxError { message: message.to_owned() }
}

/// Releases what a resource holds.
pub trait Destroy {
    fn destroy(&mut self);
}

/// An image resource.
pub trait Texture {
    fn width(&self) -> u32;

    fn height(&self) -> u32;

    fn format(&self) -> &str;
}

/// A render target that can be bound and unbound.
pub trait Framebuffer {
    fn bind(&self) -> GfxResult<()>;

    fn unbind(&self) -> GfxResult<()>;
}

/// Creates resources and submits command queues.
pub trait Device {
    type Buf: Buffer;

    type Shd: Shader;

    type Pipe: Pipeline;

    /// The backend never refuses to create a resource or to submit.
    spec fn infallible(&self) -> bool;

    fn create_buffer(&self, size: usize) -> (r: GfxResult<Self::Buf>)
        ensures
            self.infallible() ==> r is Ok,
            r matches Ok(b) ==> b.contents().len() == size,
    ;

    fn create_shader(&self, source: &str) -> (r: GfxResult<Self::Shd>)
        ensures
            self.infallible() ==> r is Ok,
            r matches Ok(s) ==> s.source() == source@,
    ;

    /// A new pipeline, not yet bound.
    fn create_pipeline<S: Shader>(&self, shader: &S) -> (r: GfxResult<Self::Pipe>)
        ensures
            self.infallible() ==> r is Ok,
            r matches Ok(p) ==> !p.bound(),
    ;

    fn submit<Q: CommandQueue>(&self, queue: &Q) -> (r: GfxResult<()>)
        ensures
            self.infallible() ==> r is Ok,
    ;
}

/// A byte store whose size is fixed at creation.
pub trait Buffer {
    spec fn contents(&self) -> Seq<u8>;

    /// Copies `data` into the front of the store; fails, changing nothing,
    /// when `data` is longer than the store.
    fn write(&mut self, data: &[u8]) -> (r: GfxResult<()>)
        ensures
            (r is Ok) == (data@.len() <= old(self).contents().len()),
            r matches Err(e) ==> e.message@ == overflow_message() && final(self).contents() == old(
                self,
            ).contents(),
            r is Ok ==> final(self).contents() == data@ + old(self).contents().subrange(
                data@.len() as int,
                old(self).contents().len() as int,
            ),
    ;

    fn size(&self) -> (n: usize)
        ensures
            n == self.contents().len(),
    ;
}

/// Shader source text.
pub trait Shader {
    spec fn source(&self) -> Seq<char>;

    /// Replaces the source; fails, changing nothing, on a blank one.
    fn set_source(&mut self, source: &str) -> (r: GfxResult<()>)
        ensures
            (r is Err) == is_blank(source@),
            r matches Err(e) ==> e.message@ == empty_source_message() && final(self).source() == old(
                self,
            ).source(),
            r is Ok ==> final(self).source() == source@,
    ;

    fn get_source(&self) -> (r: &str)
        ensures
            r@ == self.source(),
    ;
}

/// A pipeline that can be bound for use.
pub trait Pipeline {
    spec fn bound(&self) -> bool;

    /// The backend never refuses to bind.
    spec fn infallible(&self) -> bool;

    /// Binds the pipeline; once bound, it reports itself bound.
    fn bind(&mut self) -> (r: GfxResult<()>)
        ensures
            old(self).infallible() ==> r is Ok,
            r is Ok ==> final(self).bound(),
            r is Err ==> final(self).bound() == old(self).bound(),
    ;

    fn is_bound(&self) -> (b: bool)
        ensures
            b == self.bound(),
    ;
}

/// An ordered, append-only list of command labels.
pub trait CommandQueue {
    spec fn labels(&self) -> Seq<Seq<char>>;

    /// Appends `command`; fails, changing nothing, on a blank label.
    fn add_command(&mut self, command: &str) -> (r: GfxResult<()>)
        ensures
            (r is Err) == is_blank(command@),
            r matches Err(e) ==> e.message@ == empty_command_message() && final(self).labels()
                == old(self).labels(),
            r is Ok ==> final(self).labels() == old(self).labels().push(command@),
    ;

    fn clear(&mut self)
        ensures
            final(self).labels() == Seq::<Seq<char>>::empty(),
    ;

    fn commands(&self) -> (r: &[String])
        ensures
            r@.len() == self.labels().len(),
            forall|i: int| 0 <= i < r@.len() ==> #[trigger] r@[i]@ == self.labels()[i],
    ;
}

/// The minimal software backend: resources live in memory and submitting does
/// nothing.
pub struct DummyDevice;

/// A buffer of the minimal backend.
pub struct DummyBuffer {
    data: Vec<u8>,
}

/// A shader of the minimal backend.
pub struct DummyShader {
    source: String,
}

/// A pipeline of the minimal backend: a flag that binding sets.
pub struct DummyPipeline {
    bound: bool,
}

/// A command queue of the minimal backend.
pub struct DummyCommandQueue {
    commands: Vec<String>,
}

impl Device for DummyDevice {
    type Buf = DummyBuffer;

    type Shd = DummyShader;

    type Pipe = DummyPipeline;

    open spec fn infallible(&self) -> bool {
        true
    }

    fn create_buffer(&self, size: usize) -> (r: GfxResult<DummyBuffer>) {
        let mut data: Vec<u8> = Vec::new();
        let mut i: usize = 0;
        while i < size
            invariant
                i <= size,
                data@.len() == i,
            decreases size - i,
        {
            data.push(0);
            i = i + 1;
        }
        Ok(DummyBuffer { data })
    }

    fn create_shader(&self, source: &str) -> (r: GfxResult<DummyShader>) {
        Ok(DummyShader { source: source.to_owned() })
    }

    fn create_pipeline<S: Shader>(&self, shader: &S) -> (r: GfxResult<DummyPipeline>) {
        Ok(DummyPipeline { bound: false })
    }

    fn submit<Q: CommandQueue>(&self, queue: &Q) -> (r: GfxResult<()>) {
        Ok(())
    }
}

impl Buffer for DummyBuffer {
    closed spec fn contents(&self) -> Seq<u8> {
        self.data@
    }

    fn write(&mut self, data: &[u8]) -> (r: GfxResult<()>) {
        if data.len() > self.data.len() {
            return Err(error("Buffer overflow"));
        }
        let ghost before = self.data@;
        let mut i: usize = 0;
        while i < data.len()
            invariant
                i <= data@.len(),
                data@.len() <= before.len(),
                self.data@.len() == before.len(),
                forall|j: int| 0 <= j < i ==> self.data@[j] == data@[j],
                forall|j: int| i <= j < before.len() ==> self.data@[j] == before[j],
            decreases data@.len() - i,
        {
            self.data.set(i, data[i]);
            i = i + 1;
        }
        assert(self.data@ =~= data@ + before.subrange(data@.len() as int, before.len() as int));
        Ok(())
    }

    fn size(&self) -> (n: usize) {
        self.data.len()
    }
}

impl Destroy for DummyBuffer {
    fn destroy(&mut self) {
        self.data.clear();
    }
}

impl Shader for DummyShader {
    closed spec fn source(&self) -> Seq<char> {
        self.source@
    }

    fn set_source(&mut self, source: &str) -> (r: GfxResult<()>) {
        if blank(source) {
            return Err(error("Shader source is empty"));
        }
        self.source = source.to_owned();
        Ok(())
    }

    fn get_source(&self) -> (r: &str) {
        self.source.as_str()
    }
}

impl Destroy for DummyShader {
    fn destroy(&mut self) {
        self.source = String::new();
    }
}

impl Pipeline for DummyPipeline {
    closed spec fn bound(&self) -> bool {
        self.bound
    }

    open spec fn infallible(&self) -> bool {
        true
    }

    fn bind(&mut self) -> (r: GfxResult<()>) {
        self.bound = true;
        Ok(())
    }

    fn is_bound(&self) -> (b: bool) {
        self.bound
    }
}

impl Destroy for DummyPipeline {
    fn destroy(&mut self) {
    }
}

impl DummyCommandQueue {
    /// An empty queue.
    pub fn new() -> (q: Self)
        ensures
            q.labels() == Seq::<Seq<char>>::empty(),
    {
        DummyCommandQueue { commands: Vec::new() }
    }
}

impl CommandQueue for DummyCommandQueue {
    closed spec fn labels(&self) -> Seq<Seq<char>> {
        self.commands@.map_values(|s: String| s@)
    }

    fn add_command(&mut self, command: &str) -> (r: GfxResult<()>) {
        if blank(command) {
            return Err(error("Command is empty"));
        }
        self.commands.push(command.to_owned());
        assert(self.commands@.map_values(|s: String| s@) =~= old(self).commands@.map_values(
            |s: String| s@,
        ).push(command@));
        Ok(())
    }

    fn clear(&mut self) {
        self.commands.clear();
        assert(self.commands@.map_values(|s: String| s@) =~= Seq::<Seq<char>>::empty());
    }

    fn commands(&self) -> (r: &[String]) {
        self.commands.as_slice()
    }
}

impl Destroy for DummyCommandQueue {
    fn destroy(&mut self) {
        self.commands.clear();
    }
}

} // verus!
