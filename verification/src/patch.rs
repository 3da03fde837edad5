//! The patch engine: exact, literal substitutions in the text of source
//! files, and the two substitution tables that alter the identification
//! strings of the hypervisor and of its firmware.

use crate::text::{
    chars_of, find, first_occurrence, lemma_first_occurrence_exists, lemma_first_occurrence_is,
    occurs, occurs_at, push_chars, string_of,
};
use vstd::prelude::*;
use vstd::slice::slice_subrange;
use vstd::string::StringExecFns;

verus! {

/// One substitution: in the file at `file`, relative to the root of the
/// tree, `old_text` is replaced by `new_text`.
#[derive(Clone, Debug)]
pub struct Substitution {
    pub file: String,
    pub old_text: String,
    pub new_text: String,
}

/// What a `Substitution` holds, as character sequences.
pub struct SubstitutionView {
    pub file: Seq<char>,
    pub old_text: Seq<char>,
    pub new_text: Seq<char>,
}

impl View for Substitution {
    type V = SubstitutionView;

    open spec fn view(&self) -> SubstitutionView {
        SubstitutionView { file: self.file@, old_text: self.old_text@, new_text: self.new_text@ }
    }
}

impl Substitution {
    /// The substitution of `new_text` for `old_text` in `file`.
    pub fn new(file: &str, old_text: &str, new_text: &str) -> (out: Substitution)
        ensures
            out@ == (SubstitutionView { file: file@, old_text: old_text@, new_text: new_text@ }),
    {
        Substitution {
            file: file.to_owned(),
            old_text: old_text.to_owned(),
            new_text: new_text.to_owned(),
        }
    }
}

/// The views of a sequence of substitutions, in order.
pub open spec fn views_of(subs: Seq<Substitution>) -> Seq<SubstitutionView> {
    Seq::new(subs.len(), |i: int| subs[i]@)
}

/// What a missing old text means for the patch phase.
#[derive(Clone, Copy, Debug, PartialEq, Eq, Structural)]
pub enum PatchMode {
    /// A substitution whose old text is missing fails the phase.
    Strict,
    /// A substitution whose old text is missing is skipped with a warning.
    BestEffort,
}

/// `content` with the first occurrence of `old_text` replaced by `new_text`;
/// `None` when `old_text` does not occur in `content`.
pub open spec fn replaced(content: Seq<char>, old_text: Seq<char>, new_text: Seq<char>) -> Option<
    Seq<char>,
> {
    match first_occurrence(content, old_text) {
        Some(i) => Some(content.take(i) + new_text + content.skip(i + old_text.len())),
        None => None,
    }
}

/// Replaces the first occurrence of `old_text` in `content` by `new_text`.
/// The rest of the text is kept as it is, later occurrences included.
pub fn replace_first(content: &str, old_text: &str, new_text: &str) -> (out: Option<String>)
    ensures
        match out {
            Some(s) => replaced(content@, old_text@, new_text@) == Some(s@),
            None => replaced(content@, old_text@, new_text@) is None,
        },
        out is None <==> !occurs(content@, old_text@),
{
    let hay = chars_of(content);
    let needle = chars_of(old_text);
    proof {
        lemma_first_occurrence_exists(hay@, needle@);
    }
    match find(hay.as_slice(), needle.as_slice(), 0) {
        Some(i) => {
            proof {
                lemma_first_occurrence_is(hay@, needle@, i as int);
            }
            assert(i + needle.len() <= hay.len());
            let after: usize = i + needle.len();
            let mut out = string_of(slice_subrange(hay.as_slice(), 0, i));
            out.append(new_text);
            push_chars(&mut out, slice_subrange(hay.as_slice(), after, hay.len()));
            Some(out)
        },
        None => {
            assert(forall|j: int| !occurs_at(hay@, needle@, j));
            None
        },
    }
}

/// The result of applying one substitution to the text of its file.
#[derive(Clone, Debug)]
pub enum Applied {
    /// The old text was found; this is the new text of the file.
    Replaced(String),
    /// The old text was not found and the mode lets the file stand.
    Skipped,
    /// The old text was not found and the mode asks for it.
    NotFound,
}

/// Applies `sub` to `content`, the text of the file that it names.
pub fn apply_substitution(content: &str, sub: &Substitution, mode: PatchMode) -> (out: Applied)
    ensures
        match out {
            Applied::Replaced(s) => replaced(content@, sub@.old_text, sub@.new_text) == Some(s@),
            Applied::Skipped => !occurs(content@, sub@.old_text) && mode == PatchMode::BestEffort,
            Applied::NotFound => !occurs(content@, sub@.old_text) && mode == PatchMode::Strict,
        },
        out is Replaced <==> occurs(content@, sub@.old_text),
{
    match replace_first(content, sub.old_text.as_str(), sub.new_text.as_str()) {
        Some(s) => Applied::Replaced(s),
        None => match mode {
            PatchMode::Strict => Applied::NotFound,
            PatchMode::BestEffort => Applied::Skipped,
        },
    }
}

/// Once a substitution has been applied and its old text is gone from the
/// result, applying it again replaces nothing: the strict mode reports the old
/// text as not found, the other mode skips.
pub proof fn lemma_second_application_finds_nothing(
    content: Seq<char>,
    old_text: Seq<char>,
    new_text: Seq<char>,
)
    requires
        replaced(content, old_text, new_text) is Some,
        !occurs(replaced(content, old_text, new_text)->0, old_text),
    ensures
        replaced(replaced(content, old_text, new_text)->0, old_text, new_text) is None,
{
    lemma_first_occurrence_exists(replaced(content, old_text, new_text)->0, old_text);
}

/// A file, the old text and the new text of one row of a substitution table.
pub type Row = (&'static str, &'static str, &'static str);

/// The substitutions for the hypervisor tree, in the order in which they are
/// applied.
pub const QEMU_SUBSTITUTIONS: [Row; 13] = [
    ("block/bochs.c", ".format_name\t= \"bochs\",", ".format_name\t= \"woots\","),
    (
        "hw/i386/fw_cfg.c",
        "* DMA control register is located at FW_CFG_DMA_IO_BASE + 4\n */",
        "* DMA control register is located at FW_CFG_DMA_IO_BASE + 4",
    ),
    (
        "hw/i386/fw_cfg.c",
        "/* device present, functioning, decoding, not shown in UI */",
        "/* device present, functioning, decoding, not shown in UI ",
    ),
    ("hw/i386/fw_cfg.c", "aml_append(scope, dev);", "aml_append(scope, dev); */"),
    ("hw/scsi/scsi-disk.c", "s->vendor = g_strdup(\"QEMU\");", "s->vendor = g_strdup(\"<WOOT>\");"),
    (
        "hw/scsi/scsi-disk.c",
        "s->product = g_strdup(\"QEMU HARDDISK\");",
        "s->product = g_strdup(\"WDC WD20EARS\");",
    ),
    (
        "hw/scsi/scsi-disk.c",
        "s->product = g_strdup(\"QEMU CD-ROM\");",
        "s->product = g_strdup(\"TOSHIBA DVD-ROM\");",
    ),
    (
        "hw/smbios/smbios.c",
        "t->bios_characteristics_extension_bytes[1] = 0x14;",
        "t->bios_characteristics_extension_bytes[1] = 0x08;",
    ),
    ("hw/usb/dev-wacom.c", "QEMU PenPartner tablet", "WOOT PenPartner tablet"),
    ("hw/usb/dev-wacom.c", "QEMU PenPartner Tablet", "WOOT PenPartner Tablet"),
    (
        "hw/usb/dev-wacom.c",
        "[STR_MANUFACTURER]     = \"QEMU\",",
        "[STR_MANUFACTURER]     = \"WOOT\",",
    ),
    (
        "include/hw/acpi/aml-build.h",
        "#define ACPI_BUILD_APPNAME6 \"BOCHS \"\n#define ACPI_BUILD_APPNAME4 \"BXPC\"",
        "#define ACPI_BUILD_APPNAME6 \"ALASKA \"\n#define ACPI_BUILD_APPNAME4 \"RCKS\"",
    ),
    ("target/i386/kvm/kvm.c", "KVMKVMKVM\\0\\0\\0", "GenuineIntel"),
];

/// The substitutions for the firmware tree, in the order in which they are
/// applied.
pub const EDK2_SUBSTITUTIONS: [Row; 5] = [
    (
        "MdeModulePkg/MdeModulePkg.dec",
        "gEfiMdeModulePkgTokenSpaceGuid.PcdAcpiDefaultOemTableId|0x20202020324B4445|UINT64|0x30001035",
        "gEfiMdeModulePkgTokenSpaceGuid.PcdAcpiDefaultOemTableId|0x20202020324B4544|UINT64|0x30001035",
    ),
    (
        "OvmfPkg/AcpiTables/Dsdt.asl",
        "DefinitionBlock (\"Dsdt.aml\", \"DSDT\", 1, \"INTEL \", \"OVMF    \", 4)",
        "DefinitionBlock (\"Dsdt.aml\", \"DSDT\", 1, \"INTEL \", \"WOOT    \", 4)",
    ),
    (
        "OvmfPkg/AcpiTables/Platform.h",
        "#define EFI_ACPI_OEM_ID           'O','V','M','F',' ',' '   // OEMID 6 bytes long\n#define EFI_ACPI_OEM_TABLE_ID     SIGNATURE_64('O','V','M','F','E','D','K','2') // OEM table id 8 bytes long\n#define EFI_ACPI_OEM_REVISION     0x20130221\n#define EFI_ACPI_CREATOR_ID       SIGNATURE_32('O','V','M','F')\n#define EFI_ACPI_CREATOR_REVISION 0x00000099",
        "#define EFI_ACPI_OEM_ID           'W','O','O','T',' ',' '   // OEMID 6 bytes long\n#define EFI_ACPI_OEM_TABLE_ID     SIGNATURE_64('W','O','O','T','N','O','O','B') // OEM table id 8 bytes long\n#define EFI_ACPI_OEM_REVISION     0x20201230\n#define EFI_ACPI_CREATOR_ID       SIGNATURE_32('N','O','O','B')\n#define EFI_ACPI_CREATOR_REVISION 0x00000098",
    ),
    (
        "OvmfPkg/AcpiTables/Ssdt.asl",
        "DefinitionBlock (\"Ssdt.aml\", \"SSDT\", 1, \"REDHAT \", \"OVMF    \", 4)",
        "DefinitionBlock (\"Ssdt.aml\", \"SSDT\", 1, \"<WOOT> \", \"WOOT    \", 4)",
    ),
    (
        "OvmfPkg/SmbiosPlatformDxe/SmbiosPlatformDxe.c",
        "  \"EFI Development Kit II / OVMF\\0\"     /* Vendor */ \n  \"0.0.0\\0\"                             /* BiosVersion */ \n  \"02/06/2015\\0\"                        /* BiosReleaseDate */",
        "  \"American Megatrends Inc. NOOP\\0\"     /* Vendor */ \n  \"1.6.0\\0\"                             /* BiosVersion */ \n  \"12/01/2020\\0\"                        /* BiosReleaseDate */",
    ),
];

/// The substitutions that the rows of `table` stand for, in order.
pub open spec fn table_view(table: Seq<Row>) -> Seq<SubstitutionView> {
    Seq::new(
        table.len(),
        |i: int|
            SubstitutionView { file: table[i].0@, old_text: table[i].1@, new_text: table[i].2@ },
    )
}

/// The substitutions that the rows of `table` stand for, in order.
pub fn substitutions_from(table: &[Row]) -> (out: Vec<Substitution>)
    ensures
        views_of(out@) == table_view(table@),
{
    let mut out: Vec<Substitution> = Vec::new();
    let mut i: usize = 0;
    while i < table.len()
        invariant
            i <= table.len(),
            out.len() == i,
            forall|j: int| 0 <= j < i ==> (#[trigger] out@[j])@ == table_view(table@)[j],
        decreases table.len() - i,
    {
        let row: Row = table[i];
        out.push(Substitution::new(row.0, row.1, row.2));
        i += 1;
    }
    assert(views_of(out@) == table_view(table@));
    out
}

/// The substitutions for the hypervisor tree.
pub fn qemu_substitutions() -> (out: Vec<Substitution>)
    ensures
        views_of(out@) == table_view(QEMU_SUBSTITUTIONS@),
{
    substitutions_from(QEMU_SUBSTITUTIONS.as_slice())
}

/// The substitutions for the firmware tree.
pub fn edk2_substitutions() -> (out: Vec<Substitution>)
    ensures
        views_of(out@) == table_view(EDK2_SUBSTITUTIONS@),
{
    substitutions_from(EDK2_SUBSTITUTIONS.as_slice())
}

} // verus!
