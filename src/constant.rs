use vstd::prelude::*;

verus! {

/// A debugging information entry's tag.
pub type DwTag = u16;

/// An attribute's name.
pub type DwAt = u16;

/// An attribute value's encoding.
pub type DwForm = u16;

/// The children flag of an abbreviation.
pub type DwChildren = u8;

/// A standard line-number opcode.
pub type DwLns = u8;

/// An extended line-number opcode.
pub type DwLne = u8;

#[allow(non_upper_case_globals)]
pub const DW_TAG_null: DwTag = 0x00;
#[allow(non_upper_case_globals)]
pub const DW_TAG_array_type: DwTag = 0x01;
#[allow(non_upper_case_globals)]
pub const DW_TAG_class_type: DwTag = 0x02;
#[allow(non_upper_case_globals)]
pub const DW_TAG_entry_point: DwTag = 0x03;
#[allow(non_upper_case_globals)]
pub const DW_TAG_enumeration_type: DwTag = 0x04;
#[allow(non_upper_case_globals)]
pub const DW_TAG_formal_parameter: DwTag = 0x05;
#[allow(non_upper_case_globals)]
pub const DW_TAG_imported_declaration: DwTag = 0x08;
#[allow(non_upper_case_globals)]
pub const DW_TAG_label: DwTag = 0x0a;
#[allow(non_upper_case_globals)]
pub const DW_TAG_lexical_block: DwTag = 0x0b;
#[allow(non_upper_case_globals)]
pub const DW_TAG_member: DwTag = 0x0d;
#[allow(non_upper_case_globals)]
pub const DW_TAG_pointer_type: DwTag = 0x0f;
#[allow(non_upper_case_globals)]
pub const DW_TAG_reference_type: DwTag = 0x10;
#[allow(non_upper_case_globals)]
pub const DW_TAG_compile_unit: DwTag = 0x11;
#[allow(non_upper_case_globals)]
pub const DW_TAG_string_type: DwTag = 0x12;
#[allow(non_upper_case_globals)]
pub const DW_TAG_structure_type: DwTag = 0x13;
#[allow(non_upper_case_globals)]
pub const DW_TAG_subroutine_type: DwTag = 0x15;
#[allow(non_upper_case_globals)]
pub const DW_TAG_typedef: DwTag = 0x16;
#[allow(non_upper_case_globals)]
pub const DW_TAG_union_type: DwTag = 0x17;
#[allow(non_upper_case_globals)]
pub const DW_TAG_unspecified_parameters: DwTag = 0x18;
#[allow(non_upper_case_globals)]
pub const DW_TAG_variant: DwTag = 0x19;
#[allow(non_upper_case_globals)]
pub const DW_TAG_common_block: DwTag = 0x1a;
#[allow(non_upper_case_globals)]
pub const DW_TAG_common_inclusion: DwTag = 0x1b;
#[allow(non_upper_case_globals)]
pub const DW_TAG_inheritance: DwTag = 0x1c;
#[allow(non_upper_case_globals)]
pub const DW_TAG_inlined_subroutine: DwTag = 0x1d;
#[allow(non_upper_case_globals)]
pub const DW_TAG_module: DwTag = 0x1e;
#[allow(non_upper_case_globals)]
pub const DW_TAG_ptr_to_member_type: DwTag = 0x1f;
#[allow(non_upper_case_globals)]
pub const DW_TAG_set_type: DwTag = 0x20;
#[allow(non_upper_case_globals)]
pub const DW_TAG_subrange_type: DwTag = 0x21;
#[allow(non_upper_case_globals)]
pub const DW_TAG_with_stmt: DwTag = 0x22;
#[allow(non_upper_case_globals)]
pub const DW_TAG_access_declaration: DwTag = 0x23;
#[allow(non_upper_case_globals)]
pub const DW_TAG_base_type: DwTag = 0x24;
#[allow(non_upper_case_globals)]
pub const DW_TAG_catch_block: DwTag = 0x25;
#[allow(non_upper_case_globals)]
pub const DW_TAG_const_type: DwTag = 0x26;
#[allow(non_upper_case_globals)]
pub const DW_TAG_constant: DwTag = 0x27;
#[allow(non_upper_case_globals)]
pub const DW_TAG_enumerator: DwTag = 0x28;
#[allow(non_upper_case_globals)]
pub const DW_TAG_file_type: DwTag = 0x29;
#[allow(non_upper_case_globals)]
pub const DW_TAG_friend: DwTag = 0x2a;
#[allow(non_upper_case_globals)]
pub const DW_TAG_namelist: DwTag = 0x2b;
#[allow(non_upper_case_globals)]
pub const DW_TAG_namelist_item: DwTag = 0x2c;
#[allow(non_upper_case_globals)]
pub const DW_TAG_packed_type: DwTag = 0x2d;
#[allow(non_upper_case_globals)]
pub const DW_TAG_subprogram: DwTag = 0x2e;
#[allow(non_upper_case_globals)]
pub const DW_TAG_template_type_parameter: DwTag = 0x2f;
#[allow(non_upper_case_globals)]
pub const DW_TAG_template_value_parameter: DwTag = 0x30;
#[allow(non_upper_case_globals)]
pub const DW_TAG_thrown_type: DwTag = 0x31;
#[allow(non_upper_case_globals)]
pub const DW_TAG_try_block: DwTag = 0x32;
#[allow(non_upper_case_globals)]
pub const DW_TAG_variant_part: DwTag = 0x33;
#[allow(non_upper_case_globals)]
pub const DW_TAG_variable: DwTag = 0x34;
#[allow(non_upper_case_globals)]
pub const DW_TAG_volatile_type: DwTag = 0x35;
#[allow(non_upper_case_globals)]
pub const DW_TAG_dwarf_procedure: DwTag = 0x36;
#[allow(non_upper_case_globals)]
pub const DW_TAG_restrict_type: DwTag = 0x37;
#[allow(non_upper_case_globals)]
pub const DW_TAG_interface_type: DwTag = 0x38;
#[allow(non_upper_case_globals)]
pub const DW_TAG_namespace: DwTag = 0x39;
#[allow(non_upper_case_globals)]
pub const DW_TAG_imported_module: DwTag = 0x3a;
#[allow(non_upper_case_globals)]
pub const DW_TAG_unspecified_type: DwTag = 0x3b;
#[allow(non_upper_case_globals)]
pub const DW_TAG_partial_unit: DwTag = 0x3c;
#[allow(non_upper_case_globals)]
pub const DW_TAG_imported_unit: DwTag = 0x3d;
#[allow(non_upper_case_globals)]
pub const DW_TAG_condition: DwTag = 0x3f;
#[allow(non_upper_case_globals)]
pub const DW_TAG_shared_type: DwTag = 0x40;
#[allow(non_upper_case_globals)]
pub const DW_TAG_type_unit: DwTag = 0x41;
#[allow(non_upper_case_globals)]
pub const DW_TAG_rvalue_reference_type: DwTag = 0x42;
#[allow(non_upper_case_globals)]
pub const DW_TAG_template_alias: DwTag = 0x43;

#[allow(non_upper_case_globals)]
pub const DW_AT_null: DwAt = 0x00;
#[allow(non_upper_case_globals)]
pub const DW_AT_sibling: DwAt = 0x01;
#[allow(non_upper_case_globals)]
pub const DW_AT_location: DwAt = 0x02;
#[allow(non_upper_case_globals)]
pub const DW_AT_name: DwAt = 0x03;
#[allow(non_upper_case_globals)]
pub const DW_AT_ordering: DwAt = 0x09;
#[allow(non_upper_case_globals)]
pub const DW_AT_byte_size: DwAt = 0x0b;
#[allow(non_upper_case_globals)]
pub const DW_AT_bit_offset: DwAt = 0x0c;
#[allow(non_upper_case_globals)]
pub const DW_AT_bit_size: DwAt = 0x0d;
#[allow(non_upper_case_globals)]
pub const DW_AT_stmt_list: DwAt = 0x10;
#[allow(non_upper_case_globals)]
pub const DW_AT_low_pc: DwAt = 0x11;
#[allow(non_upper_case_globals)]
pub const DW_AT_high_pc: DwAt = 0x12;
#[allow(non_upper_case_globals)]
pub const DW_AT_language: DwAt = 0x13;
#[allow(non_upper_case_globals)]
pub const DW_AT_discr: DwAt = 0x15;
#[allow(non_upper_case_globals)]
pub const DW_AT_discr_value: DwAt = 0x16;
#[allow(non_upper_case_globals)]
pub const DW_AT_visibility: DwAt = 0x17;
#[allow(non_upper_case_globals)]
pub const DW_AT_import: DwAt = 0x18;
#[allow(non_upper_case_globals)]
pub const DW_AT_string_length: DwAt = 0x19;
#[allow(non_upper_case_globals)]
pub const DW_AT_common_reference: DwAt = 0x1a;
#[allow(non_upper_case_globals)]
pub const DW_AT_comp_dir: DwAt = 0x1b;
#[allow(non_upper_case_globals)]
pub const DW_AT_const_value: DwAt = 0x1c;
#[allow(non_upper_case_globals)]
pub const DW_AT_containing_type: DwAt = 0x1d;
#[allow(non_upper_case_globals)]
pub const DW_AT_default_value: DwAt = 0x1e;
#[allow(non_upper_case_globals)]
pub const DW_AT_inline: DwAt = 0x20;
#[allow(non_upper_case_globals)]
pub const DW_AT_is_optional: DwAt = 0x21;
#[allow(non_upper_case_globals)]
pub const DW_AT_lower_bound: DwAt = 0x22;
#[allow(non_upper_case_globals)]
pub const DW_AT_producer: DwAt = 0x25;
#[allow(non_upper_case_globals)]
pub const DW_AT_prototyped: DwAt = 0x27;
#[allow(non_upper_case_globals)]
pub const DW_AT_return_addr: DwAt = 0x2a;
#[allow(non_upper_case_globals)]
pub const DW_AT_start_scope: DwAt = 0x2c;
#[allow(non_upper_case_globals)]
pub const DW_AT_bit_stride: DwAt = 0x2e;
#[allow(non_upper_case_globals)]
pub const DW_AT_upper_bound: DwAt = 0x2f;
#[allow(non_upper_case_globals)]
pub const DW_AT_abstract_origin: DwAt = 0x31;
#[allow(non_upper_case_globals)]
pub const DW_AT_accessibility: DwAt = 0x32;
#[allow(non_upper_case_globals)]
pub const DW_AT_address_class: DwAt = 0x33;
#[allow(non_upper_case_globals)]
pub const DW_AT_artificial: DwAt = 0x34;
#[allow(non_upper_case_globals)]
pub const DW_AT_base_types: DwAt = 0x35;
#[allow(non_upper_case_globals)]
pub const DW_AT_calling_convention: DwAt = 0x36;
#[allow(non_upper_case_globals)]
pub const DW_AT_count: DwAt = 0x37;
#[allow(non_upper_case_globals)]
pub const DW_AT_data_member_location: DwAt = 0x38;
#[allow(non_upper_case_globals)]
pub const DW_AT_decl_column: DwAt = 0x39;
#[allow(non_upper_case_globals)]
pub const DW_AT_decl_file: DwAt = 0x3a;
#[allow(non_upper_case_globals)]
pub const DW_AT_decl_line: DwAt = 0x3b;
#[allow(non_upper_case_globals)]
pub const DW_AT_declaration: DwAt = 0x3c;
#[allow(non_upper_case_globals)]
pub const DW_AT_discr_list: DwAt = 0x3d;
#[allow(non_upper_case_globals)]
pub const DW_AT_encoding: DwAt = 0x3e;
#[allow(non_upper_case_globals)]
pub const DW_AT_external: DwAt = 0x3f;
#[allow(non_upper_case_globals)]
pub const DW_AT_frame_base: DwAt = 0x40;
#[allow(non_upper_case_globals)]
pub const DW_AT_friend: DwAt = 0x41;
#[allow(non_upper_case_globals)]
pub const DW_AT_identifier_case: DwAt = 0x42;
#[allow(non_upper_case_globals)]
pub const DW_AT_macro_info: DwAt = 0x43;
#[allow(non_upper_case_globals)]
pub const DW_AT_namelist_item: DwAt = 0x44;
#[allow(non_upper_case_globals)]
pub const DW_AT_priority: DwAt = 0x45;
#[allow(non_upper_case_globals)]
pub const DW_AT_segment: DwAt = 0x46;
#[allow(non_upper_case_globals)]
pub const DW_AT_specification: DwAt = 0x47;
#[allow(non_upper_case_globals)]
pub const DW_AT_static_link: DwAt = 0x48;
#[allow(non_upper_case_globals)]
pub const DW_AT_type: DwAt = 0x49;
#[allow(non_upper_case_globals)]
pub const DW_AT_use_location: DwAt = 0x4a;
#[allow(non_upper_case_globals)]
pub const DW_AT_variable_parameter: DwAt = 0x4b;
#[allow(non_upper_case_globals)]
pub const DW_AT_virtuality: DwAt = 0x4c;
#[allow(non_upper_case_globals)]
pub const DW_AT_vtable_elem_location: DwAt = 0x4d;
#[allow(non_upper_case_globals)]
pub const DW_AT_allocated: DwAt = 0x4e;
#[allow(non_upper_case_globals)]
pub const DW_AT_associated: DwAt = 0x4f;
#[allow(non_upper_case_globals)]
pub const DW_AT_data_location: DwAt = 0x50;
#[allow(non_upper_case_globals)]
pub const DW_AT_byte_stride: DwAt = 0x51;
#[allow(non_upper_case_globals)]
pub const DW_AT_entry_pc: DwAt = 0x52;
#[allow(non_upper_case_globals)]
pub const DW_AT_use_UTF8: DwAt = 0x53;
#[allow(non_upper_case_globals)]
pub const DW_AT_extension: DwAt = 0x54;
#[allow(non_upper_case_globals)]
pub const DW_AT_ranges: DwAt = 0x55;
#[allow(non_upper_case_globals)]
pub const DW_AT_trampoline: DwAt = 0x56;
#[allow(non_upper_case_globals)]
pub const DW_AT_call_column: DwAt = 0x57;
#[allow(non_upper_case_globals)]
pub const DW_AT_call_file: DwAt = 0x58;
#[allow(non_upper_case_globals)]
pub const DW_AT_call_line: DwAt = 0x59;
#[allow(non_upper_case_globals)]
pub const DW_AT_description: DwAt = 0x5a;
#[allow(non_upper_case_globals)]
pub const DW_AT_binary_scale: DwAt = 0x5b;
#[allow(non_upper_case_globals)]
pub const DW_AT_decimal_scale: DwAt = 0x5c;
#[allow(non_upper_case_globals)]
pub const DW_AT_small: DwAt = 0x5d;
#[allow(non_upper_case_globals)]
pub const DW_AT_decimal_sign: DwAt = 0x5e;
#[allow(non_upper_case_globals)]
pub const DW_AT_digit_count: DwAt = 0x5f;
#[allow(non_upper_case_globals)]
pub const DW_AT_picture_string: DwAt = 0x60;
#[allow(non_upper_case_globals)]
pub const DW_AT_mutable: DwAt = 0x61;
#[allow(non_upper_case_globals)]
pub const DW_AT_threads_scaled: DwAt = 0x62;
#[allow(non_upper_case_globals)]
pub const DW_AT_explicit: DwAt = 0x63;
#[allow(non_upper_case_globals)]
pub const DW_AT_object_pointer: DwAt = 0x64;
#[allow(non_upper_case_globals)]
pub const DW_AT_endianity: DwAt = 0x65;
#[allow(non_upper_case_globals)]
pub const DW_AT_elemental: DwAt = 0x66;
#[allow(non_upper_case_globals)]
pub const DW_AT_pure: DwAt = 0x67;
#[allow(non_upper_case_globals)]
pub const DW_AT_recursive: DwAt = 0x68;
#[allow(non_upper_case_globals)]
pub const DW_AT_signature: DwAt = 0x69;
#[allow(non_upper_case_globals)]
pub const DW_AT_main_subprogram: DwAt = 0x6a;
#[allow(non_upper_case_globals)]
pub const DW_AT_data_bit_offset: DwAt = 0x6b;
#[allow(non_upper_case_globals)]
pub const DW_AT_const_expr: DwAt = 0x6c;
#[allow(non_upper_case_globals)]
pub const DW_AT_enum_class: DwAt = 0x6d;
#[allow(non_upper_case_globals)]
pub const DW_AT_linkage_name: DwAt = 0x6e;

#[allow(non_upper_case_globals)]
pub const DW_FORM_null: DwForm = 0x00;
#[allow(non_upper_case_globals)]
pub const DW_FORM_addr: DwForm = 0x01;
#[allow(non_upper_case_globals)]
pub const DW_FORM_block2: DwForm = 0x03;
#[allow(non_upper_case_globals)]
pub const DW_FORM_block4: DwForm = 0x04;
#[allow(non_upper_case_globals)]
pub const DW_FORM_data2: DwForm = 0x05;
#[allow(non_upper_case_globals)]
pub const DW_FORM_data4: DwForm = 0x06;
#[allow(non_upper_case_globals)]
pub const DW_FORM_data8: DwForm = 0x07;
#[allow(non_upper_case_globals)]
pub const DW_FORM_string: DwForm = 0x08;
#[allow(non_upper_case_globals)]
pub const DW_FORM_block: DwForm = 0x09;
#[allow(non_upper_case_globals)]
pub const DW_FORM_block1: DwForm = 0x0a;
#[allow(non_upper_case_globals)]
pub const DW_FORM_data1: DwForm = 0x0b;
#[allow(non_upper_case_globals)]
pub const DW_FORM_flag: DwForm = 0x0c;
#[allow(non_upper_case_globals)]
pub const DW_FORM_sdata: DwForm = 0x0d;
#[allow(non_upper_case_globals)]
pub const DW_FORM_strp: DwForm = 0x0e;
#[allow(non_upper_case_globals)]
pub const DW_FORM_udata: DwForm = 0x0f;
#[allow(non_upper_case_globals)]
pub const DW_FORM_ref_addr: DwForm = 0x10;
#[allow(non_upper_case_globals)]
pub const DW_FORM_ref1: DwForm = 0x11;
#[allow(non_upper_case_globals)]
pub const DW_FORM_ref2: DwForm = 0x12;
#[allow(non_upper_case_globals)]
pub const DW_FORM_ref4: DwForm = 0x13;
#[allow(non_upper_case_globals)]
pub const DW_FORM_ref8: DwForm = 0x14;
#[allow(non_upper_case_globals)]
pub const DW_FORM_ref_udata: DwForm = 0x15;
#[allow(non_upper_case_globals)]
pub const DW_FORM_indirect: DwForm = 0x16;
#[allow(non_upper_case_globals)]
pub const DW_FORM_sec_offset: DwForm = 0x17;
#[allow(non_upper_case_globals)]
pub const DW_FORM_exprloc: DwForm = 0x18;
#[allow(non_upper_case_globals)]
pub const DW_FORM_flag_present: DwForm = 0x19;
#[allow(non_upper_case_globals)]
pub const DW_FORM_ref_sig8: DwForm = 0x20;

#[allow(non_upper_case_globals)]
pub const DW_CHILDREN_no: DwChildren = 0;
#[allow(non_upper_case_globals)]
pub const DW_CHILDREN_yes: DwChildren = 1;

#[allow(non_upper_case_globals)]
pub const DW_LNS_extended: DwLns = 0x00;
#[allow(non_upper_case_globals)]
pub const DW_LNS_copy: DwLns = 0x01;
#[allow(non_upper_case_globals)]
pub const DW_LNS_advance_pc: DwLns = 0x02;
#[allow(non_upper_case_globals)]
pub const DW_LNS_advance_line: DwLns = 0x03;
#[allow(non_upper_case_globals)]
pub const DW_LNS_set_file: DwLns = 0x04;
#[allow(non_upper_case_globals)]
pub const DW_LNS_set_column: DwLns = 0x05;
#[allow(non_upper_case_globals)]
pub const DW_LNS_negate_stmt: DwLns = 0x06;
#[allow(non_upper_case_globals)]
pub const DW_LNS_set_basic_block: DwLns = 0x07;
#[allow(non_upper_case_globals)]
pub const DW_LNS_const_add_pc: DwLns = 0x08;
#[allow(non_upper_case_globals)]
pub const DW_LNS_fixed_advance_pc: DwLns = 0x09;
#[allow(non_upper_case_globals)]
pub const DW_LNS_set_prologue_end: DwLns = 0x0a;
#[allow(non_upper_case_globals)]
pub const DW_LNS_set_epilogue_begin: DwLns = 0x0b;
#[allow(non_upper_case_globals)]
pub const DW_LNS_set_isa: DwLns = 0x0c;

#[allow(non_upper_case_globals)]
pub const DW_LNE_end_sequence: DwLne = 0x01;
#[allow(non_upper_case_globals)]
pub const DW_LNE_set_address: DwLne = 0x02;
#[allow(non_upper_case_globals)]
pub const DW_LNE_define_file: DwLne = 0x03;
#[allow(non_upper_case_globals)]
pub const DW_LNE_set_discriminator: DwLne = 0x04;

/// The name of a tag, without its prefix.
pub open spec fn spec_tag_name(v: DwTag) -> Option<&'static str> {
    if v == DW_TAG_array_type {
        Some("array_type")
    } else if v == DW_TAG_class_type {
        Some("class_type")
    } else if v == DW_TAG_entry_point {
        Some("entry_point")
    } else if v == DW_TAG_enumeration_type {
        Some("enumeration_type")
    } else if v == DW_TAG_formal_parameter {
        Some("formal_parameter")
    } else if v == DW_TAG_imported_declaration {
        Some("imported_declaration")
    } else if v == DW_TAG_label {
        Some("label")
    } else if v == DW_TAG_lexical_block {
        Some("lexical_block")
    } else if v == DW_TAG_member {
        Some("member")
    } else if v == DW_TAG_pointer_type {
        Some("pointer_type")
    } else if v == DW_TAG_reference_type {
        Some("reference_type")
    } else if v == DW_TAG_compile_unit {
        Some("compile_unit")
    } else if v == DW_TAG_string_type {
        Some("string_type")
    } else if v == DW_TAG_structure_type {
        Some("structure_type")
    } else if v == DW_TAG_subroutine_type {
        Some("subroutine_type")
    } else if v == DW_TAG_typedef {
        Some("typedef")
    } else if v == DW_TAG_union_type {
        Some("union_type")
    } else if v == DW_TAG_unspecified_parameters {
        Some("unspecified_parameters")
    } else if v == DW_TAG_variant {
        Some("variant")
    } else if v == DW_TAG_common_block {
        Some("common_block")
    } else if v == DW_TAG_common_inclusion {
        Some("common_inclusion")
    } else if v == DW_TAG_inheritance {
        Some("inheritance")
    } else if v == DW_TAG_inlined_subroutine {
        Some("inlined_subroutine")
    } else if v == DW_TAG_module {
        Some("module")
    } else if v == DW_TAG_ptr_to_member_type {
        Some("ptr_to_member_type")
    } else if v == DW_TAG_set_type {
        Some("set_type")
    } else if v == DW_TAG_subrange_type {
        Some("subrange_type")
    } else if v == DW_TAG_with_stmt {
        Some("with_stmt")
    } else if v == DW_TAG_access_declaration {
        Some("access_declaration")
    } else if v == DW_TAG_base_type {
        Some("base_type")
    } else if v == DW_TAG_catch_block {
        Some("catch_block")
    } else if v == DW_TAG_const_type {
        Some("const_type")
    } else if v == DW_TAG_constant {
        Some("constant")
    } else if v == DW_TAG_enumerator {
        Some("enumerator")
    } else if v == DW_TAG_file_type {
        Some("file_type")
    } else if v == DW_TAG_friend {
        Some("friend")
    } else if v == DW_TAG_namelist {
        Some("namelist")
    } else if v == DW_TAG_namelist_item {
        Some("namelist_item")
    } else if v == DW_TAG_packed_type {
        Some("packed_type")
    } else if v == DW_TAG_subprogram {
        Some("subprogram")
    } else if v == DW_TAG_template_type_parameter {
        Some("template_type_parameter")
    } else if v == DW_TAG_template_value_parameter {
        Some("template_value_parameter")
    } else if v == DW_TAG_thrown_type {
        Some("thrown_type")
    } else if v == DW_TAG_try_block {
        Some("try_block")
    } else if v == DW_TAG_variant_part {
        Some("variant_part")
    } else if v == DW_TAG_variable {
        Some("variable")
    } else if v == DW_TAG_volatile_type {
        Some("volatile_type")
    } else if v == DW_TAG_dwarf_procedure {
        Some("dwarf_procedure")
    } else if v == DW_TAG_restrict_type {
        Some("restrict_type")
    } else if v == DW_TAG_interface_type {
        Some("interface_type")
    } else if v == DW_TAG_namespace {
        Some("namespace")
    } else if v == DW_TAG_imported_module {
        Some("imported_module")
    } else if v == DW_TAG_unspecified_type {
        Some("unspecified_type")
    } else if v == DW_TAG_partial_unit {
        Some("partial_unit")
    } else if v == DW_TAG_imported_unit {
        Some("imported_unit")
    } else if v == DW_TAG_condition {
        Some("condition")
    } else if v == DW_TAG_shared_type {
        Some("shared_type")
    } else if v == DW_TAG_type_unit {
        Some("type_unit")
    } else if v == DW_TAG_rvalue_reference_type {
        Some("rvalue_reference_type")
    } else if v == DW_TAG_template_alias {
        Some("template_alias")
    } else {
        None
    }
}

/// The name of a tag, without its prefix; `None` for a value this library
/// has no name for.
pub fn tag_name(v: DwTag) -> (r: Option<&'static str>)
    ensures
        r == spec_tag_name(v),
{
    if v == DW_TAG_array_type {
        Some("array_type")
    } else if v == DW_TAG_class_type {
        Some("class_type")
    } else if v == DW_TAG_entry_point {
        Some("entry_point")
    } else if v == DW_TAG_enumeration_type {
        Some("enumeration_type")
    } else if v == DW_TAG_formal_parameter {
        Some("formal_parameter")
    } else if v == DW_TAG_imported_declaration {
        Some("imported_declaration")
    } else if v == DW_TAG_label {
        Some("label")
    } else if v == DW_TAG_lexical_block {
        Some("lexical_block")
    } else if v == DW_TAG_member {
        Some("member")
    } else if v == DW_TAG_pointer_type {
        Some("pointer_type")
    } else if v == DW_TAG_reference_type {
        Some("reference_type")
    } else if v == DW_TAG_compile_unit {
        Some("compile_unit")
    } else if v == DW_TAG_string_type {
        Some("string_type")
    } else if v == DW_TAG_structure_type {
        Some("structure_type")
    } else if v == DW_TAG_subroutine_type {
        Some("subroutine_type")
    } else if v == DW_TAG_typedef {
        Some("typedef")
    } else if v == DW_TAG_union_type {
        Some("union_type")
    } else if v == DW_TAG_unspecified_parameters {
        Some("unspecified_parameters")
    } else if v == DW_TAG_variant {
        Some("variant")
    } else if v == DW_TAG_common_block {
        Some("common_block")
    } else if v == DW_TAG_common_inclusion {
        Some("common_inclusion")
    } else if v == DW_TAG_inheritance {
        Some("inheritance")
    } else if v == DW_TAG_inlined_subroutine {
        Some("inlined_subroutine")
    } else if v == DW_TAG_module {
        Some("module")
    } else if v == DW_TAG_ptr_to_member_type {
        Some("ptr_to_member_type")
    } else if v == DW_TAG_set_type {
        Some("set_type")
    } else if v == DW_TAG_subrange_type {
        Some("subrange_type")
    } else if v == DW_TAG_with_stmt {
        Some("with_stmt")
    } else if v == DW_TAG_access_declaration {
        Some("access_declaration")
    } else if v == DW_TAG_base_type {
        Some("base_type")
    } else if v == DW_TAG_catch_block {
        Some("catch_block")
    } else if v == DW_TAG_const_type {
        Some("const_type")
    } else if v == DW_TAG_constant {
        Some("constant")
    } else if v == DW_TAG_enumerator {
        Some("enumerator")
    } else if v == DW_TAG_file_type {
        Some("file_type")
    } else if v == DW_TAG_friend {
        Some("friend")
    } else if v == DW_TAG_namelist {
        Some("namelist")
    } else if v == DW_TAG_namelist_item {
        Some("namelist_item")
    } else if v == DW_TAG_packed_type {
        Some("packed_type")
    } else if v == DW_TAG_subprogram {
        Some("subprogram")
    } else if v == DW_TAG_template_type_parameter {
        Some("template_type_parameter")
    } else if v == DW_TAG_template_value_parameter {
        Some("template_value_parameter")
    } else if v == DW_TAG_thrown_type {
        Some("thrown_type")
    } else if v == DW_TAG_try_block {
        Some("try_block")
    } else if v == DW_TAG_variant_part {
        Some("variant_part")
    } else if v == DW_TAG_variable {
        Some("variable")
    } else if v == DW_TAG_volatile_type {
        Some("volatile_type")
    } else if v == DW_TAG_dwarf_procedure {
        Some("dwarf_procedure")
    } else if v == DW_TAG_restrict_type {
        Some("restrict_type")
    } else if v == DW_TAG_interface_type {
        Some("interface_type")
    } else if v == DW_TAG_namespace {
        Some("namespace")
    } else if v == DW_TAG_imported_module {
        Some("imported_module")
    } else if v == DW_TAG_unspecified_type {
        Some("unspecified_type")
    } else if v == DW_TAG_partial_unit {
        Some("partial_unit")
    } else if v == DW_TAG_imported_unit {
        Some("imported_unit")
    } else if v == DW_TAG_condition {
        Some("condition")
    } else if v == DW_TAG_shared_type {
        Some("shared_type")
    } else if v == DW_TAG_type_unit {
        Some("type_unit")
    } else if v == DW_TAG_rvalue_reference_type {
        Some("rvalue_reference_type")
    } else if v == DW_TAG_template_alias {
        Some("template_alias")
    } else {
        None
    }
}

/// The name of an attribute name, without its prefix.
pub open spec fn spec_at_name(v: DwAt) -> Option<&'static str> {
    if v == DW_AT_sibling {
        Some("sibling")
    } else if v == DW_AT_location {
        Some("location")
    } else if v == DW_AT_name {
        Some("name")
    } else if v == DW_AT_ordering {
        Some("ordering")
    } else if v == DW_AT_byte_size {
        Some("byte_size")
    } else if v == DW_AT_bit_offset {
        Some("bit_offset")
    } else if v == DW_AT_bit_size {
        Some("bit_size")
    } else if v == DW_AT_stmt_list {
        Some("stmt_list")
    } else if v == DW_AT_low_pc {
        Some("low_pc")
    } else if v == DW_AT_high_pc {
        Some("high_pc")
    } else if v == DW_AT_language {
        Some("language")
    } else if v == DW_AT_discr {
        Some("discr")
    } else if v == DW_AT_discr_value {
        Some("discr_value")
    } else if v == DW_AT_visibility {
        Some("visibility")
    } else if v == DW_AT_import {
        Some("import")
    } else if v == DW_AT_string_length {
        Some("string_length")
    } else if v == DW_AT_common_reference {
        Some("common_reference")
    } else if v == DW_AT_comp_dir {
        Some("comp_dir")
    } else if v == DW_AT_const_value {
        Some("const_value")
    } else if v == DW_AT_containing_type {
        Some("containing_type")
    } else if v == DW_AT_default_value {
        Some("default_value")
    } else if v == DW_AT_inline {
        Some("inline")
    } else if v == DW_AT_is_optional {
        Some("is_optional")
    } else if v == DW_AT_lower_bound {
        Some("lower_bound")
    } else if v == DW_AT_producer {
        Some("producer")
    } else if v == DW_AT_prototyped {
        Some("prototyped")
    } else if v == DW_AT_return_addr {
        Some("return_addr")
    } else if v == DW_AT_start_scope {
        Some("start_scope")
    } else if v == DW_AT_bit_stride {
        Some("bit_stride")
    } else if v == DW_AT_upper_bound {
        Some("upper_bound")
    } else if v == DW_AT_abstract_origin {
        Some("abstract_origin")
    } else if v == DW_AT_accessibility {
        Some("accessibility")
    } else if v == DW_AT_address_class {
        Some("address_class")
    } else if v == DW_AT_artificial {
        Some("artificial")
    } else if v == DW_AT_base_types {
        Some("base_types")
    } else if v == DW_AT_calling_convention {
        Some("calling_convention")
    } else if v == DW_AT_count {
        Some("count")
    } else if v == DW_AT_data_member_location {
        Some("data_member_location")
    } else if v == DW_AT_decl_column {
        Some("decl_column")
    } else if v == DW_AT_decl_file {
        Some("decl_file")
    } else if v == DW_AT_decl_line {
        Some("decl_line")
    } else if v == DW_AT_declaration {
        Some("declaration")
    } else if v == DW_AT_discr_list {
        Some("discr_list")
    } else if v == DW_AT_encoding {
        Some("encoding")
    } else if v == DW_AT_external {
        Some("external")
    } else if v == DW_AT_frame_base {
        Some("frame_base")
    } else if v == DW_AT_friend {
        Some("friend")
    } else if v == DW_AT_identifier_case {
        Some("identifier_case")
    } else if v == DW_AT_macro_info {
        Some("macro_info")
    } else if v == DW_AT_namelist_item {
        Some("namelist_item")
    } else if v == DW_AT_priority {
        Some("priority")
    } else if v == DW_AT_segment {
        Some("segment")
    } else if v == DW_AT_specification {
        Some("specification")
    } else if v == DW_AT_static_link {
        Some("static_link")
    } else if v == DW_AT_type {
        Some("type")
    } else if v == DW_AT_use_location {
        Some("use_location")
    } else if v == DW_AT_variable_parameter {
        Some("variable_parameter")
    } else if v == DW_AT_virtuality {
        Some("virtuality")
    } else if v == DW_AT_vtable_elem_location {
        Some("vtable_elem_location")
    } else if v == DW_AT_allocated {
        Some("allocated")
    } else if v == DW_AT_associated {
        Some("associated")
    } else if v == DW_AT_data_location {
        Some("data_location")
    } else if v == DW_AT_byte_stride {
        Some("byte_stride")
    } else if v == DW_AT_entry_pc {
        Some("entry_pc")
    } else if v == DW_AT_use_UTF8 {
        Some("use_UTF8")
    } else if v == DW_AT_extension {
        Some("extension")
    } else if v == DW_AT_ranges {
        Some("ranges")
    } else if v == DW_AT_trampoline {
        Some("trampoline")
    } else if v == DW_AT_call_column {
        Some("call_column")
    } else if v == DW_AT_call_file {
        Some("call_file")
    } else if v == DW_AT_call_line {
        Some("call_line")
    } else if v == DW_AT_description {
        Some("description")
    } else if v == DW_AT_binary_scale {
        Some("binary_scale")
    } else if v == DW_AT_decimal_scale {
        Some("decimal_scale")
    } else if v == DW_AT_small {
        Some("small")
    } else if v == DW_AT_decimal_sign {
        Some("decimal_sign")
    } else if v == DW_AT_digit_count {
        Some("digit_count")
    } else if v == DW_AT_picture_string {
        Some("picture_string")
    } else if v == DW_AT_mutable {
        Some("mutable")
    } else if v == DW_AT_threads_scaled {
        Some("threads_scaled")
    } else if v == DW_AT_explicit {
        Some("explicit")
    } else if v == DW_AT_object_pointer {
        Some("object_pointer")
    } else if v == DW_AT_endianity {
        Some("endianity")
    } else if v == DW_AT_elemental {
        Some("elemental")
    } else if v == DW_AT_pure {
        Some("pure")
    } else if v == DW_AT_recursive {
        Some("recursive")
    } else if v == DW_AT_signature {
        Some("signature")
    } else if v == DW_AT_main_subprogram {
        Some("main_subprogram")
    } else if v == DW_AT_data_bit_offset {
        Some("data_bit_offset")
    } else if v == DW_AT_const_expr {
        Some("const_expr")
    } else if v == DW_AT_enum_class {
        Some("enum_class")
    } else if v == DW_AT_linkage_name {
        Some("linkage_name")
    } else {
        None
    }
}

/// The name of an attribute name, without its prefix; `None` for a value this library
/// has no name for.
pub fn at_name(v: DwAt) -> (r: Option<&'static str>)
    ensures
        r == spec_at_name(v),
{
    if v == DW_AT_sibling {
        Some("sibling")
    } else if v == DW_AT_location {
        Some("location")
    } else if v == DW_AT_name {
        Some("name")
    } else if v == DW_AT_ordering {
        Some("ordering")
    } else if v == DW_AT_byte_size {
        Some("byte_size")
    } else if v == DW_AT_bit_offset {
        Some("bit_offset")
    } else if v == DW_AT_bit_size {
        Some("bit_size")
    } else if v == DW_AT_stmt_list {
        Some("stmt_list")
    } else if v == DW_AT_low_pc {
        Some("low_pc")
    } else if v == DW_AT_high_pc {
        Some("high_pc")
    } else if v == DW_AT_language {
        Some("language")
    } else if v == DW_AT_discr {
        Some("discr")
    } else if v == DW_AT_discr_value {
        Some("discr_value")
    } else if v == DW_AT_visibility {
        Some("visibility")
    } else if v == DW_AT_import {
        Some("import")
    } else if v == DW_AT_string_length {
        Some("string_length")
    } else if v == DW_AT_common_reference {
        Some("common_reference")
    } else if v == DW_AT_comp_dir {
        Some("comp_dir")
    } else if v == DW_AT_const_value {
        Some("const_value")
    } else if v == DW_AT_containing_type {
        Some("containing_type")
    } else if v == DW_AT_default_value {
        Some("default_value")
    } else if v == DW_AT_inline {
        Some("inline")
    } else if v == DW_AT_is_optional {
        Some("is_optional")
    } else if v == DW_AT_lower_bound {
        Some("lower_bound")
    } else if v == DW_AT_producer {
        Some("producer")
    } else if v == DW_AT_prototyped {
        Some("prototyped")
    } else if v == DW_AT_return_addr {
        Some("return_addr")
    } else if v == DW_AT_start_scope {
        Some("start_scope")
    } else if v == DW_AT_bit_stride {
        Some("bit_stride")
    } else if v == DW_AT_upper_bound {
        Some("upper_bound")
    } else if v == DW_AT_abstract_origin {
        Some("abstract_origin")
    } else if v == DW_AT_accessibility {
        Some("accessibility")
    } else if v == DW_AT_address_class {
        Some("address_class")
    } else if v == DW_AT_artificial {
        Some("artificial")
    } else if v == DW_AT_base_types {
        Some("base_types")
    } else if v == DW_AT_calling_convention {
        Some("calling_convention")
    } else if v == DW_AT_count {
        Some("count")
    } else if v == DW_AT_data_member_location {
        Some("data_member_location")
    } else if v == DW_AT_decl_column {
        Some("decl_column")
    } else if v == DW_AT_decl_file {
        Some("decl_file")
    } else if v == DW_AT_decl_line {
        Some("decl_line")
    } else if v == DW_AT_declaration {
        Some("declaration")
    } else if v == DW_AT_discr_list {
        Some("discr_list")
    } else if v == DW_AT_encoding {
        Some("encoding")
    } else if v == DW_AT_external {
        Some("external")
    } else if v == DW_AT_frame_base {
        Some("frame_base")
    } else if v == DW_AT_friend {
        Some("friend")
    } else if v == DW_AT_identifier_case {
        Some("identifier_case")
    } else if v == DW_AT_macro_info {
        Some("macro_info")
    } else if v == DW_AT_namelist_item {
        Some("namelist_item")
    } else if v == DW_AT_priority {
        Some("priority")
    } else if v == DW_AT_segment {
        Some("segment")
    } else if v == DW_AT_specification {
        Some("specification")
    } else if v == DW_AT_static_link {
        Some("static_link")
    } else if v == DW_AT_type {
        Some("type")
    } else if v == DW_AT_use_location {
        Some("use_location")
    } else if v == DW_AT_variable_parameter {
        Some("variable_parameter")
    } else if v == DW_AT_virtuality {
        Some("virtuality")
    } else if v == DW_AT_vtable_elem_location {
        Some("vtable_elem_location")
    } else if v == DW_AT_allocated {
        Some("allocated")
    } else if v == DW_AT_associated {
        Some("associated")
    } else if v == DW_AT_data_location {
        Some("data_location")
    } else if v == DW_AT_byte_stride {
        Some("byte_stride")
    } else if v == DW_AT_entry_pc {
        Some("entry_pc")
    } else if v == DW_AT_use_UTF8 {
        Some("use_UTF8")
    } else if v == DW_AT_extension {
        Some("extension")
    } else if v == DW_AT_ranges {
        Some("ranges")
    } else if v == DW_AT_trampoline {
        Some("trampoline")
    } else if v == DW_AT_call_column {
        Some("call_column")
    } else if v == DW_AT_call_file {
        Some("call_file")
    } else if v == DW_AT_call_line {
        Some("call_line")
    } else if v == DW_AT_description {
        Some("description")
    } else if v == DW_AT_binary_scale {
        Some("binary_scale")
    } else if v == DW_AT_decimal_scale {
        Some("decimal_scale")
    } else if v == DW_AT_small {
        Some("small")
    } else if v == DW_AT_decimal_sign {
        Some("decimal_sign")
    } else if v == DW_AT_digit_count {
        Some("digit_count")
    } else if v == DW_AT_picture_string {
        Some("picture_string")
    } else if v == DW_AT_mutable {
        Some("mutable")
    } else if v == DW_AT_threads_scaled {
        Some("threads_scaled")
    } else if v == DW_AT_explicit {
        Some("explicit")
    } else if v == DW_AT_object_pointer {
        Some("object_pointer")
    } else if v == DW_AT_endianity {
        Some("endianity")
    } else if v == DW_AT_elemental {
        Some("elemental")
    } else if v == DW_AT_pure {
        Some("pure")
    } else if v == DW_AT_recursive {
        Some("recursive")
    } else if v == DW_AT_signature {
        Some("signature")
    } else if v == DW_AT_main_subprogram {
        Some("main_subprogram")
    } else if v == DW_AT_data_bit_offset {
        Some("data_bit_offset")
    } else if v == DW_AT_const_expr {
        Some("const_expr")
    } else if v == DW_AT_enum_class {
        Some("enum_class")
    } else if v == DW_AT_linkage_name {
        Some("linkage_name")
    } else {
        None
    }
}

} // verus!
